use vstd::prelude::*;

use crate::json::{Json, JValue, key_pos, values_view, members_view, lemma_arr_view, lemma_obj_view, find_key};
use crate::text::{is_prefix, has_prefix, text_eq, join, opt_text};

verus! {

/// Methods of the `system.` namespace are sent as they are and carry no token.
pub open spec fn is_system(m: Seq<char>) -> bool {
    is_prefix("system."@, m)
}

/// The fully qualified name under which a method goes on the wire.
pub open spec fn wire_method(m: Seq<char>) -> Seq<char> {
    if is_system(m) {
        m
    } else {
        "aria2."@ + m
    }
}

/// The authentication argument that carries `secret`.
pub open spec fn token(secret: Seq<char>) -> JValue {
    JValue::Str("token:"@ + secret)
}

/// `params` with the token in front.
pub open spec fn with_token(params: Seq<JValue>, secret: Seq<char>) -> Seq<JValue> {
    seq![token(secret)] + params
}

/// A sub-call of a multicall needs the token unless it names a `system.` method.
pub open spec fn needs_token(call: JValue) -> bool {
    match call.member("methodName"@) {
        Some(JValue::Str(name)) => !is_system(name),
        _ => true,
    }
}

/// One sub-call of a multicall after injection: the token goes in front of
/// its `params` array, if it needs one and has such an array.
pub open spec fn injected_call(call: JValue, secret: Seq<char>) -> JValue {
    match call {
        JValue::Obj(fs) => {
            let p = key_pos(fs, "params"@);
            if needs_token(call) && p < fs.len() && fs[p as int].1 is Arr {
                JValue::Obj(
                    fs.update(
                        p as int,
                        (fs[p as int].0, JValue::Arr(with_token(fs[p as int].1->Arr_0, secret))),
                    ),
                )
            } else {
                call
            }
        },
        _ => call,
    }
}

/// The parameters that go on the wire for `method` called with `params`.
pub open spec fn injected_params(
    method: Seq<char>,
    params: Seq<JValue>,
    secret: Option<Seq<char>>,
) -> Seq<JValue> {
    match secret {
        None => params,
        Some(s) => if method == "system.multicall"@ {
            if params.len() > 0 && params[0] is Arr {
                params.update(
                    0,
                    JValue::Arr(params[0]->Arr_0.map_values(|c: JValue| injected_call(c, s))),
                )
            } else {
                params
            }
        } else if !is_system(method) {
            with_token(params, s)
        } else {
            params
        },
    }
}

/// The name under which `method` goes on the wire.
pub fn qualified_method(method: &str) -> (r: String)
    ensures
        r@ == wire_method(method@),
{
    if has_prefix(method, "system.") {
        String::from_str(method)
    } else {
        join("aria2.", method)
    }
}

fn token_value(secret: &String) -> (r: Json)
    ensures
        r@ == token(secret@),
{
    Json::Str(join("token:", secret.as_str()))
}

fn prepend_token(params: Vec<Json>, secret: &String) -> (r: Vec<Json>)
    ensures
        values_view(r@) == with_token(values_view(params@), secret@),
{
    let ghost before = params@;
    let mut params = params;
    params.insert(0, token_value(secret));
    assert(values_view(params@) =~= with_token(values_view(before), secret@));
    params
}

fn call_needs_token(call: &Json) -> (r: bool)
    ensures
        r == needs_token(call@),
{
    match call.get("methodName") {
        Some(n) => match n.as_str() {
            Some(name) => !has_prefix(name.as_str(), "system."),
            None => true,
        },
        None => true,
    }
}

/// Injects the token into one sub-call of a multicall.
fn inject_call(call: Json, secret: &String) -> (r: Json)
    ensures
        r@ == injected_call(call@, secret@),
{
    let needs = call_needs_token(&call);
    match call {
        Json::Obj(fs) => {
            proof { lemma_obj_view(fs); }
            let ghost before = members_view(fs@);
            let p = find_key(&fs, "params");
            if !needs || p >= fs.len() {
                return Json::Obj(fs);
            }
            let mut fs = fs;
            let (k, v) = fs.remove(p);
            match v {
                Json::Arr(inner) => {
                    proof { lemma_arr_view(inner); }
                    let inner = prepend_token(inner, secret);
                    proof { lemma_arr_view(inner); }
                    fs.insert(p, (k, Json::Arr(inner)));
                    proof { lemma_obj_view(fs); }
                    assert(members_view(fs@) =~= before.update(
                        p as int,
                        (before[p as int].0, JValue::Arr(with_token(before[p as int].1->Arr_0, secret@))),
                    ));
                    Json::Obj(fs)
                },
                v => {
                    fs.insert(p, (k, v));
                    proof { lemma_obj_view(fs); }
                    assert(members_view(fs@) =~= before);
                    Json::Obj(fs)
                },
            }
        },
        call => call,
    }
}

/// Injects the token into every sub-call of a multicall.
fn inject_calls(calls: Vec<Json>, secret: &String) -> (r: Vec<Json>)
    ensures
        values_view(r@) == values_view(calls@).map_values(|c: JValue| injected_call(c, secret@)),
{
    let ghost all = calls@;
    let n = calls.len();
    let mut rest = calls;
    let mut out: Vec<Json> = Vec::new();
    while rest.len() > 0
        invariant
            all.len() == n,
            out@.len() + rest@.len() == n,
            rest@ == all.subrange(out@.len() as int, n as int),
            forall|j: int| 0 <= j < out@.len() ==> out@[j]@ == injected_call(all[j]@, secret@),
        decreases rest@.len(),
    {
        let c = rest.remove(0);
        out.push(inject_call(c, secret));
        assert(rest@ =~= all.subrange(out@.len() as int, n as int));
    }
    assert(values_view(out@) =~= values_view(all).map_values(|c: JValue| injected_call(c, secret@)));
    out
}

/// The parameters that go on the wire: the token, where one is configured,
/// goes in front of the parameters of an `aria2.` method, or of each
/// `aria2.` sub-call of a multicall; `system.` methods are left alone.
pub fn inject_token(method: &str, params: Vec<Json>, secret: &Option<String>) -> (r: Vec<Json>)
    ensures
        values_view(r@) == injected_params(method@, values_view(params@), opt_text(*secret)),
{
    let ghost before = values_view(params@);
    match secret {
        None => params,
        Some(s) => {
            if text_eq(method, "system.multicall") {
                if params.len() == 0 {
                    return params;
                }
                let mut params = params;
                let first = params.remove(0);
                match first {
                    Json::Arr(calls) => {
                        proof { lemma_arr_view(calls); }
                        let calls = inject_calls(calls, s);
                        proof { lemma_arr_view(calls); }
                        params.insert(0, Json::Arr(calls));
                        assert(values_view(params@) =~= before.update(
                            0,
                            JValue::Arr(before[0]->Arr_0.map_values(|c: JValue| injected_call(c, s@))),
                        ));
                        params
                    },
                    first => {
                        params.insert(0, first);
                        assert(values_view(params@) =~= before);
                        params
                    },
                }
            } else if !has_prefix(method, "system.") {
                prepend_token(params, s)
            } else {
                params
            }
        },
    }
}

} // verus!
