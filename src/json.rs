use vstd::prelude::*;

use crate::text::text_eq;

verus! {

broadcast use vstd::std_specs::vec::group_vec_axioms;

/// A JSON value. Numbers that fit in an `i64` are held as integers; any
/// other number keeps its JSON text. An object keeps its members in order.
#[derive(Debug, PartialEq)]
pub enum Json {
    Null,
    Bool(bool),
    Int(i64),
    Num(String),
    Str(String),
    Arr(Vec<Json>),
    Obj(Vec<(String, Json)>),
}

/// The mathematical model of a JSON value.
pub ghost enum JValue {
    Null,
    Bool(bool),
    Int(int),
    Num(Seq<char>),
    Str(Seq<char>),
    Arr(Seq<JValue>),
    Obj(Seq<(Seq<char>, JValue)>),
}

/// The model of a list of values.
pub open spec fn values_view(a: Seq<Json>) -> Seq<JValue> {
    Seq::new(a.len(), |i: int| a[i]@)
}

/// The model of a list of object members.
pub open spec fn members_view(fs: Seq<(String, Json)>) -> Seq<(Seq<char>, JValue)> {
    Seq::new(fs.len(), |i: int| (fs[i].0@, fs[i].1@))
}

impl View for Json {
    type V = JValue;

    open spec fn view(&self) -> JValue
        decreases self,
    {
        match self {
            Json::Null => JValue::Null,
            Json::Bool(b) => JValue::Bool(*b),
            Json::Int(n) => JValue::Int(*n as int),
            Json::Num(t) => JValue::Num(t@),
            Json::Str(s) => JValue::Str(s@),
            Json::Arr(a) => JValue::Arr(Seq::new(a.len() as nat, |i: int| {
                if 0 <= i < a.len() { a[i].view() } else { JValue::Null }
            })),
            Json::Obj(fs) => JValue::Obj(Seq::new(fs.len() as nat, |i: int| {
                if 0 <= i < fs.len() { (fs[i].0@, fs[i].1.view()) } else { (Seq::empty(), JValue::Null) }
            })),
        }
    }
}

pub proof fn lemma_arr_view(a: Vec<Json>)
    ensures
        Json::Arr(a)@ == JValue::Arr(values_view(a@)),
{
    assert(Json::Arr(a)@->Arr_0 =~= values_view(a@));
}

pub proof fn lemma_obj_view(fs: Vec<(String, Json)>)
    ensures
        Json::Obj(fs)@ == JValue::Obj(members_view(fs@)),
{
    let j = Json::Obj(fs);
    reveal_with_fuel(<Json as View>::view, 2);
    let m = j@->Obj_0;
    assert forall|i: int| 0 <= i < fs.len() implies m[i] == members_view(fs@)[i] by {
        assert(m[i].0 == fs[i].0@);
        assert(m[i].1 == fs[i].1@);
    }
    assert(m =~= members_view(fs@));
}

/// Position of the first member named `k`, or the number of members if
/// there is none.
pub open spec fn key_pos(fields: Seq<(Seq<char>, JValue)>, k: Seq<char>) -> nat
    decreases fields.len(),
{
    if fields.len() == 0 {
        0
    } else if fields[0].0 == k {
        0
    } else {
        1 + key_pos(fields.drop_first(), k)
    }
}

/// The value of the first member named `k`.
pub open spec fn lookup(fields: Seq<(Seq<char>, JValue)>, k: Seq<char>) -> Option<JValue> {
    let i = key_pos(fields, k);
    if i < fields.len() {
        Some(fields[i as int].1)
    } else {
        None
    }
}

/// `i` is where the first member named `k` stands (or the end).
pub open spec fn first_key_at(fields: Seq<(Seq<char>, JValue)>, k: Seq<char>, i: int) -> bool {
    &&& 0 <= i <= fields.len()
    &&& forall|j: int| 0 <= j < i ==> fields[j].0 != k
    &&& i < fields.len() ==> fields[i].0 == k
}

pub proof fn lemma_key_pos(fields: Seq<(Seq<char>, JValue)>, k: Seq<char>, i: int)
    requires
        first_key_at(fields, k, i),
    ensures
        key_pos(fields, k) == i,
    decreases fields.len(),
{
    if fields.len() > 0 && fields[0].0 != k {
        let rest = fields.drop_first();
        assert(first_key_at(rest, k, i - 1)) by {
            assert forall|j: int| 0 <= j < i - 1 implies rest[j].0 != k by {
                assert(rest[j] == fields[j + 1]);
            }
        }
        lemma_key_pos(rest, k, i - 1);
    }
}

impl JValue {
    /// The member named `k`, if this is an object that has one.
    pub open spec fn member(self, k: Seq<char>) -> Option<JValue> {
        match self {
            JValue::Obj(fields) => lookup(fields, k),
            _ => None,
        }
    }

    /// The first element, if this is a non-empty array.
    pub open spec fn first(self) -> Option<JValue> {
        match self {
            JValue::Arr(a) => if a.len() > 0 { Some(a[0]) } else { None },
            _ => None,
        }
    }
}

/// Finds where the first member named `k` stands.
pub fn find_key(fields: &Vec<(String, Json)>, k: &str) -> (r: usize)
    ensures
        first_key_at(members_view(fields@), k@, r as int),
        r == key_pos(members_view(fields@), k@),
{
    let ghost m = members_view(fields@);
    let mut i: usize = 0;
    while i < fields.len()
        invariant
            m == members_view(fields@),
            i <= fields.len(),
            forall|j: int| 0 <= j < i ==> m[j].0 != k@,
        decreases fields.len() - i,
    {
        if text_eq(fields[i].0.as_str(), k) {
            proof { lemma_key_pos(m, k@, i as int); }
            return i;
        }
        i = i + 1;
    }
    proof { lemma_key_pos(m, k@, i as int); }
    i
}

impl Json {
    /// The member named `k` of an object.
    pub fn get(&self, k: &str) -> (r: Option<&Json>)
        ensures
            match self@.member(k@) {
                Some(v) => r is Some && r->0@ == v,
                None => r is None,
            },
    {
        match self {
            Json::Obj(fields) => {
                proof { lemma_obj_view(*fields); }
                let i = find_key(fields, k);
                if i < fields.len() {
                    Some(&fields[i].1)
                } else {
                    None
                }
            },
            _ => None,
        }
    }

    pub fn as_str(&self) -> (r: Option<&String>)
        ensures
            match self@ {
                JValue::Str(s) => r is Some && r->0@ == s,
                _ => r is None,
            },
    {
        match self {
            Json::Str(s) => Some(s),
            _ => None,
        }
    }

    pub fn as_array(&self) -> (r: Option<&Vec<Json>>)
        ensures
            match self@ {
                JValue::Arr(a) => r is Some && values_view(r->0@) == a,
                _ => r is None,
            },
    {
        match self {
            Json::Arr(a) => {
                proof { lemma_arr_view(*a); }
                Some(a)
            },
            _ => None,
        }
    }

    pub fn as_i64(&self) -> (r: Option<i64>)
        ensures
            match self@ {
                JValue::Int(n) => r == Some(n as i64),
                _ => r is None,
            },
    {
        match self {
            Json::Int(n) => Some(*n),
            _ => None,
        }
    }

    /// A copy of this value.
    pub fn copy(&self) -> (r: Json)
        ensures
            r@ == self@,
        decreases self,
    {
        match self {
            Json::Null => Json::Null,
            Json::Bool(b) => Json::Bool(*b),
            Json::Int(n) => Json::Int(*n),
            Json::Num(t) => Json::Num(t.clone()),
            Json::Str(s) => Json::Str(s.clone()),
            Json::Arr(a) => {
                let mut out: Vec<Json> = Vec::new();
                let mut i: usize = 0;
                while i < a.len()
                    invariant
                        *self == Json::Arr(*a),
                        i <= a.len(),
                        out@.len() == i,
                        forall|j: int| 0 <= j < i ==> out@[j]@ == a@[j]@,
                    decreases a.len() - i,
                {
                    proof {
                        assert(decreases_to!(*self => self->Arr_0));
                        assert(decreases_to!(*a => a@[i as int]));
                    }
                    out.push(a[i].copy());
                    i = i + 1;
                }
                proof {
                    lemma_arr_view(out);
                    lemma_arr_view(*a);
                    assert(values_view(out@) =~= values_view(a@));
                }
                Json::Arr(out)
            },
            Json::Obj(fs) => {
                let mut out: Vec<(String, Json)> = Vec::new();
                let mut i: usize = 0;
                while i < fs.len()
                    invariant
                        *self == Json::Obj(*fs),
                        i <= fs.len(),
                        out@.len() == i,
                        forall|j: int| 0 <= j < i ==> out@[j].0@ == fs@[j].0@ && out@[j].1@ == fs@[j].1@,
                    decreases fs.len() - i,
                {
                    proof {
                        assert(decreases_to!(*self => self->Obj_0));
                        assert(decreases_to!(*fs => fs@[i as int]));
                        assert(decreases_to!(fs@[i as int] => fs@[i as int].1));
                    }
                    out.push((fs[i].0.clone(), fs[i].1.copy()));
                    i = i + 1;
                }
                proof {
                    lemma_obj_view(out);
                    lemma_obj_view(*fs);
                    assert(members_view(out@) =~= members_view(fs@));
                }
                Json::Obj(out)
            },
        }
    }
}

/// A member that must be present and a string.
pub open spec fn string_member(v: JValue, k: Seq<char>) -> Option<Seq<char>> {
    match v.member(k) {
        Some(JValue::Str(s)) => Some(s),
        _ => None,
    }
}

/// A member that may be absent or null, and is otherwise a string:
/// `None` where it is something else.
pub open spec fn opt_string_member(v: JValue, k: Seq<char>) -> Option<Option<Seq<char>>> {
    match v.member(k) {
        None => Some(None),
        Some(JValue::Null) => Some(None),
        Some(JValue::Str(s)) => Some(Some(s)),
        _ => None,
    }
}

/// A member that may be absent or null, and is otherwise an array.
pub open spec fn opt_array_member(v: JValue, k: Seq<char>) -> Option<Option<Seq<JValue>>> {
    match v.member(k) {
        None => Some(None),
        Some(JValue::Null) => Some(None),
        Some(JValue::Arr(a)) => Some(Some(a)),
        _ => None,
    }
}

/// A member that may be absent or null, and is otherwise any value.
pub open spec fn opt_member(v: JValue, k: Seq<char>) -> Option<JValue> {
    match v.member(k) {
        Some(JValue::Null) => None,
        m => m,
    }
}

pub fn get_string(v: &Json, k: &str) -> (r: Option<String>)
    ensures
        match string_member(v@, k@) {
            Some(s) => r is Some && r->0@ == s,
            None => r is None,
        },
{
    match v.get(k) {
        Some(Json::Str(s)) => Some(s.clone()),
        _ => None,
    }
}

pub fn get_opt_string(v: &Json, k: &str) -> (r: Option<Option<String>>)
    ensures
        match opt_string_member(v@, k@) {
            Some(Some(s)) => r is Some && r->0 is Some && r->0->0@ == s,
            Some(None) => r == Some(None::<String>),
            None => r is None,
        },
{
    match v.get(k) {
        None => Some(None),
        Some(Json::Null) => Some(None),
        Some(Json::Str(s)) => Some(Some(s.clone())),
        _ => None,
    }
}

pub fn get_opt_array(v: &Json, k: &str) -> (r: Option<Option<Vec<Json>>>)
    ensures
        match opt_array_member(v@, k@) {
            Some(Some(a)) => r is Some && r->0 is Some && values_view(r->0->0@) == a,
            Some(None) => r == Some(None::<Vec<Json>>),
            None => r is None,
        },
{
    match v.get(k) {
        None => Some(None),
        Some(Json::Null) => Some(None),
        Some(a) => match a {
            Json::Arr(_) => {
                let c = a.copy();
                match c {
                    Json::Arr(items) => {
                        proof { lemma_arr_view(items); }
                        Some(Some(items))
                    },
                    _ => None,
                }
            },
            _ => None,
        },
    }
}

pub fn get_opt(v: &Json, k: &str) -> (r: Option<Json>)
    ensures
        match opt_member(v@, k@) {
            Some(m) => r is Some && r->0@ == m,
            None => r is None,
        },
{
    match v.get(k) {
        None => None,
        Some(Json::Null) => None,
        Some(m) => Some(m.copy()),
    }
}

} // verus!
