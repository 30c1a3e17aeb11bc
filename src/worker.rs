use vstd::prelude::*;

use crate::json::{
    Json, JValue, values_view, opt_string_member, opt_array_member, opt_member, get_opt_string,
    get_opt_array, get_opt,
};
use crate::rpc::{inject_token, qualified_method, injected_params, wire_method};
use crate::text::{decimal, to_decimal, text_eq, lemma_decimal_injective, opt_text};

verus! {

/// How long to wait after a failed connection attempt, in milliseconds.
pub const RECONNECT_DELAY_MS: u64 = 10_000;

/// How many commands may wait for the transport before callers block.
pub const COMMAND_QUEUE: usize = 32;

/// How many notifications the event bus holds for a slow subscriber.
pub const EVENT_BUS_CAPACITY: usize = 100;

/// A request envelope as it goes on the wire.
pub struct Aria2JsonRpcReq {
    pub id: String,
    pub jsonrpc: String,
    pub method: String,
    pub params: Vec<Json>,
}

/// An incoming envelope: a response (with `id`) or a notification (with
/// `method` and no `id`).
pub struct Aria2JsonRpcResp {
    pub id: Option<String>,
    pub method: Option<String>,
    pub params: Option<Vec<Json>>,
    pub result: Option<Json>,
    pub error: Option<Json>,
}

/// A frame decodes to an envelope when it is an object whose `id` and
/// `method` are strings and whose `params` is an array, each of them
/// possibly absent or null.
pub open spec fn is_envelope(j: JValue) -> bool {
    &&& j is Obj
    &&& opt_string_member(j, "id"@) is Some
    &&& opt_string_member(j, "method"@) is Some
    &&& opt_array_member(j, "params"@) is Some
}

pub open spec fn opt_values(p: Option<Vec<Json>>) -> Option<Seq<JValue>> {
    match p {
        Some(v) => Some(values_view(v@)),
        None => None,
    }
}

pub open spec fn opt_value(p: Option<Json>) -> Option<JValue> {
    match p {
        Some(v) => Some(v@),
        None => None,
    }
}

impl Aria2JsonRpcResp {
    /// Decodes an incoming frame.
    pub fn from_json(j: &Json) -> (r: Option<Aria2JsonRpcResp>)
        ensures
            r is Some <==> is_envelope(j@),
            r matches Some(e) ==> {
                &&& opt_text(e.id) == opt_string_member(j@, "id"@)->0
                &&& opt_text(e.method) == opt_string_member(j@, "method"@)->0
                &&& opt_values(e.params) == opt_array_member(j@, "params"@)->0
                &&& opt_value(e.result) == opt_member(j@, "result"@)
                &&& opt_value(e.error) == opt_member(j@, "error"@)
            },
    {
        match j {
            Json::Obj(_) => {},
            _ => return None,
        }
        let id = match get_opt_string(j, "id") {
            Some(v) => v,
            None => return None,
        };
        let method = match get_opt_string(j, "method") {
            Some(v) => v,
            None => return None,
        };
        let params = match get_opt_array(j, "params") {
            Some(v) => v,
            None => return None,
        };
        Some(Aria2JsonRpcResp {
            id,
            method,
            params,
            result: get_opt(j, "result"),
            error: get_opt(j, "error"),
        })
    }
}

/// What to do with a call handed to the worker.
pub enum Outgoing<S> {
    /// Send this request; its reply slot is now pending.
    Send(Aria2JsonRpcReq),
    /// The daemon is not connected: fail the call at once.
    Abort(S),
}

/// What an incoming envelope amounts to.
pub enum Routed<S> {
    /// The daemon answered the call of this slot with a result.
    Reply(S, Json),
    /// The daemon answered the call of this slot with an error.
    Failure(S, Json),
    /// The daemon answered the call of this slot with neither: the slot is
    /// dropped.
    Unanswered(S),
    /// A notification for the event bus.
    Event(Aria2JsonRpcResp),
    /// Nothing to do: an unknown id, or neither id nor method.
    Ignored,
}

/// Errors that a call can end with.
pub enum CallError {
    /// The worker no longer takes commands.
    TransportUnavailable,
    /// The reply slot was dropped before an answer came.
    CallAborted,
    /// The daemon answered with this error.
    DaemonError(Json),
}

/// The model of the worker's state.
pub ghost struct WorkerView<S> {
    pub secret: Option<Seq<char>>,
    pub next_id: nat,
    /// The calls awaiting an answer, by numeric id, in the order sent.
    pub pending: Seq<(nat, S)>,
    pub alive: bool,
}

impl<S> WorkerView<S> {
    /// Ids start at one; pending ids were handed out before and increase.
    pub open spec fn wf(self) -> bool {
        &&& self.next_id >= 1
        &&& forall|i: int| 0 <= i < self.pending.len() ==> 1 <= #[trigger] self.pending[i].0 < self.next_id
        &&& forall|i: int, j: int| 0 <= i < j < self.pending.len() ==> self.pending[i].0 < self.pending[j].0
    }

    /// A call handed in now fails at once.
    pub open spec fn aborts_calls(self) -> bool {
        !self.alive || self.next_id >= u64::MAX
    }

    /// The state after the connection is lost.
    pub open spec fn closed(self) -> WorkerView<S> {
        WorkerView { pending: Seq::empty(), alive: false, ..self }
    }

    /// The state while no connection is up.
    pub open spec fn down(self) -> WorkerView<S> {
        WorkerView { alive: false, ..self }
    }

    /// The state after the connection is made.
    pub open spec fn connected(self) -> WorkerView<S> {
        WorkerView { alive: true, ..self }
    }
}

/// Position of the first pending call whose wire id is `id`, or the number
/// of pending calls.
pub open spec fn match_pos<S>(pending: Seq<(nat, S)>, id: Seq<char>) -> nat
    decreases pending.len(),
{
    if pending.len() == 0 {
        0
    } else if decimal(pending[0].0) == id {
        0
    } else {
        1 + match_pos(pending.drop_first(), id)
    }
}

pub proof fn lemma_match_pos<S>(pending: Seq<(nat, S)>, id: Seq<char>, i: int)
    requires
        0 <= i <= pending.len(),
        forall|j: int| 0 <= j < i ==> decimal(pending[j].0) != id,
        i < pending.len() ==> decimal(pending[i].0) == id,
    ensures
        match_pos(pending, id) == i,
    decreases pending.len(),
{
    if pending.len() > 0 && decimal(pending[0].0) != id {
        let rest = pending.drop_first();
        assert forall|j: int| 0 <= j < i - 1 implies decimal(rest[j].0) != id by {
            assert(rest[j] == pending[j + 1]);
        }
        lemma_match_pos(rest, id, i - 1);
    }
}

/// Correlates calls with the daemon's answers over one connection at a
/// time: hands out ids, keeps the calls that await an answer, and routes
/// what comes back.
pub struct Aria2Worker<S> {
    url: String,
    secret: Option<String>,
    id_counter: u64,
    pending: Vec<(u64, S)>,
    alive: bool,
}

impl<S> View for Aria2Worker<S> {
    type V = WorkerView<S>;

    closed spec fn view(&self) -> WorkerView<S> {
        WorkerView {
            secret: opt_text(self.secret),
            next_id: self.id_counter as nat,
            pending: self.pending@.map_values(|p: (u64, S)| (p.0 as nat, p.1)),
            alive: self.alive,
        }
    }
}

impl<S> Aria2Worker<S> {
    #[verifier::type_invariant]
    spec fn well_formed(&self) -> bool {
        self@.wf()
    }

    pub closed spec fn spec_url(&self) -> Seq<char> {
        self.url@
    }

    /// A worker for the daemon at `url`, not yet connected.
    pub fn new(url: String, secret: Option<String>) -> (r: Aria2Worker<S>)
        ensures
            r@.wf(),
            r@.secret == opt_text(secret),
            r@.next_id == 1,
            r@.pending.len() == 0,
            !r@.alive,
            r.spec_url() == url@,
    {
        let r = Aria2Worker { url, secret, id_counter: 1, pending: Vec::new(), alive: false };
        proof { assert(r@.pending =~= Seq::<(nat, S)>::empty()); }
        r
    }

    pub fn url(&self) -> (r: &String)
        ensures
            r@ == self.spec_url(),
    {
        &self.url
    }

    /// Whether the daemon is connected.
    pub fn alive(&self) -> (r: bool)
        ensures
            r == self@.alive,
    {
        self.alive
    }

    /// Number of calls awaiting an answer.
    pub fn pending_len(&self) -> (r: usize)
        ensures
            r == self@.pending.len(),
    {
        self.pending.len()
    }

    /// Hands a call to the worker. While connected, it gets the next id and
    /// its slot waits for the answer; otherwise the call fails at once.
    pub fn dispatch(&mut self, method: &str, params: Vec<Json>, slot: S) -> (r: Outgoing<S>)
        ensures
            final(self)@.wf(),
            final(self).spec_url() == old(self).spec_url(),
            old(self)@.aborts_calls() ==> r == Outgoing::Abort(slot) && final(self)@ == old(self)@,
            !old(self)@.aborts_calls() ==> {
                &&& r matches Outgoing::Send(req)
                &&& req.id@ == decimal(old(self)@.next_id)
                &&& req.jsonrpc@ == "2.0"@
                &&& req.method@ == wire_method(method@)
                &&& values_view(req.params@) == injected_params(
                    method@,
                    values_view(params@),
                    old(self)@.secret,
                )
                &&& final(self)@ == (WorkerView {
                    next_id: old(self)@.next_id + 1,
                    pending: old(self)@.pending.push((old(self)@.next_id, slot)),
                    ..old(self)@
                })
            },
    {
        proof { use_type_invariant(&*self); }
        if !self.alive || self.id_counter == u64::MAX {
            return Outgoing::Abort(slot);
        }
        let id = self.id_counter;
        let params = inject_token(method, params, &self.secret);
        let req = Aria2JsonRpcReq {
            id: to_decimal(id),
            jsonrpc: String::from_str("2.0"),
            method: qualified_method(method),
            params,
        };
        let ghost before = self@;
        let mut pending: Vec<(u64, S)> = Vec::new();
        std::mem::swap(&mut pending, &mut self.pending);
        pending.push((id, slot));
        self.id_counter = id + 1;
        proof {
            let v = pending@.map_values(|p: (u64, S)| (p.0 as nat, p.1));
            assert(v =~= before.pending.push((before.next_id, slot)));
            assert forall|a: int| 0 <= a < v.len() implies 1 <= #[trigger] v[a].0 < id + 1 by {
                if a < before.pending.len() {
                    assert(v[a] == before.pending[a]);
                }
            }
            assert forall|a: int, b: int| 0 <= a < b < v.len() implies v[a].0 < v[b].0 by {
                assert(v[a] == before.pending[a]);
                if b < before.pending.len() {
                    assert(v[b] == before.pending[b]);
                }
            }
        }
        self.pending = pending;
        Outgoing::Send(req)
    }

    /// Routes an incoming envelope. A response takes the first pending call
    /// whose id it carries out of the pending table.
    pub fn route(&mut self, frame: Aria2JsonRpcResp) -> (r: Routed<S>)
        ensures
            final(self)@.wf(),
            final(self).spec_url() == old(self).spec_url(),
            match frame.id {
                Some(id) => {
                    let i = match_pos(old(self)@.pending, id@) as int;
                    if i < old(self)@.pending.len() {
                        let slot = old(self)@.pending[i].1;
                        &&& final(self)@ == (WorkerView {
                            pending: old(self)@.pending.remove(i),
                            ..old(self)@
                        })
                        &&& r == match frame.result {
                            Some(v) => Routed::Reply(slot, v),
                            None => match frame.error {
                                Some(e) => Routed::Failure(slot, e),
                                None => Routed::Unanswered(slot),
                            },
                        }
                    } else {
                        final(self)@ == old(self)@ && r is Ignored
                    }
                },
                None => final(self)@ == old(self)@ && if frame.method is Some {
                    r == Routed::<S>::Event(frame)
                } else {
                    r is Ignored
                },
            },
    {
        proof { use_type_invariant(&*self); }
        let ghost before = self@;
        match &frame.id {
            None => {
                if frame.method.is_some() {
                    return Routed::Event(frame);
                }
                return Routed::Ignored;
            },
            Some(id) => {
                let mut i: usize = 0;
                while i < self.pending.len()
                    invariant
                        self@ == before,
                        i <= self.pending.len(),
                        forall|j: int| 0 <= j < i ==> decimal(before.pending[j].0) != id@,
                    ensures
                        i <= self.pending.len(),
                        forall|j: int| 0 <= j < i ==> decimal(before.pending[j].0) != id@,
                        i < self.pending.len() ==> decimal(before.pending[i as int].0) == id@,
                    decreases self.pending.len() - i,
                {
                    let key = to_decimal(self.pending[i].0);
                    if text_eq(key.as_str(), id.as_str()) {
                        break;
                    }
                    i = i + 1;
                }
                proof { lemma_match_pos(before.pending, id@, i as int); }
                if i == self.pending.len() {
                    return Routed::Ignored;
                }
                let mut pending: Vec<(u64, S)> = Vec::new();
                std::mem::swap(&mut pending, &mut self.pending);
                let (_, slot) = pending.remove(i);
                proof {
                    let v = pending@.map_values(|p: (u64, S)| (p.0 as nat, p.1));
                    assert(v =~= before.pending.remove(i as int));
                    assert forall|a: int| 0 <= a < v.len() implies 1 <= #[trigger] v[a].0 < before.next_id by {
                        let a2 = if a < i { a } else { a + 1 };
                        assert(v[a] == before.pending[a2]);
                    }
                    assert forall|a: int, b: int| 0 <= a < b < v.len() implies v[a].0 < v[b].0 by {
                        let a2 = if a < i { a } else { a + 1 };
                        let b2 = if b < i { b } else { b + 1 };
                        assert(v[a] == before.pending[a2]);
                        assert(v[b] == before.pending[b2]);
                    }
                }
                self.pending = pending;
                match frame.result {
                    Some(v) => Routed::Reply(slot, v),
                    None => match frame.error {
                        Some(e) => Routed::Failure(slot, e),
                        None => Routed::Unanswered(slot),
                    },
                }
            },
        }
    }

    /// Starts a connection attempt: the daemon counts as down until it
    /// succeeds.
    pub fn begin_connect(&mut self)
        ensures
            final(self)@ == old(self)@.down(),
            final(self).spec_url() == old(self).spec_url(),
    {
        proof { use_type_invariant(&*self); }
        self.alive = false;
    }

    /// The connection attempt failed: the daemon stays down, and the next
    /// attempt waits the returned number of milliseconds.
    pub fn connect_failed(&mut self) -> (delay_ms: u64)
        ensures
            final(self)@ == old(self)@.down(),
            final(self).spec_url() == old(self).spec_url(),
            delay_ms == RECONNECT_DELAY_MS,
    {
        proof { use_type_invariant(&*self); }
        self.alive = false;
        RECONNECT_DELAY_MS
    }

    /// The connection is made.
    pub fn connected(&mut self)
        ensures
            final(self)@ == old(self)@.connected(),
            final(self).spec_url() == old(self).spec_url(),
    {
        proof { use_type_invariant(&*self); }
        self.alive = true;
    }

    /// The connection is lost: every pending call is handed back, in the
    /// order sent, to be failed.
    pub fn disconnected(&mut self) -> (slots: Vec<S>)
        ensures
            final(self)@ == old(self)@.closed(),
            final(self).spec_url() == old(self).spec_url(),
            slots@ == old(self)@.pending.map_values(|p: (nat, S)| p.1),
    {
        proof { use_type_invariant(&*self); }
        let ghost before = self@;
        let mut pending: Vec<(u64, S)> = Vec::new();
        std::mem::swap(&mut pending, &mut self.pending);
        self.alive = false;
        let ghost orig = pending@;
        let mut slots: Vec<S> = Vec::new();
        while pending.len() > 0
            invariant
                orig.map_values(|p: (u64, S)| (p.0 as nat, p.1)) == before.pending,
                slots@.len() + pending@.len() == orig.len(),
                pending@ == orig.subrange(slots@.len() as int, orig.len() as int),
                forall|j: int| 0 <= j < slots@.len() ==> slots@[j] == orig[j].1,
            decreases pending.len(),
        {
            let (_, s) = pending.remove(0);
            slots.push(s);
            assert(pending@ =~= orig.subrange(slots@.len() as int, orig.len() as int));
        }
        proof {
            assert(self@.pending =~= Seq::<(nat, S)>::empty());
            assert(slots@ =~= before.pending.map_values(|p: (nat, S)| p.1));
        }
        slots
    }
}

/// How many of the first `k` steps sent a call.
pub open spec fn sends_before(ids: Seq<Option<Seq<char>>>, k: int) -> nat
    decreases k,
{
    if k <= 0 {
        0
    } else {
        sends_before(ids, k - 1) + if ids[k - 1] is Some { 1nat } else { 0nat }
    }
}

/// `states` is the life of a new worker, step by step: step `k` either sent
/// a call under the id `ids[k]`, the counter's value, and moved the counter
/// on by one (as `dispatch` does when it sends), or left the counter alone
/// (as every other method, and `dispatch` when it aborts, does).
pub open spec fn step_history<S>(states: Seq<WorkerView<S>>, ids: Seq<Option<Seq<char>>>) -> bool {
    &&& states.len() == ids.len() + 1
    &&& states[0].next_id == 1
    &&& forall|k: int| 0 <= k < ids.len() ==> match #[trigger] ids[k] {
        Some(id) => id == decimal(states[k].next_id) && states[k + 1].next_id == states[k].next_id + 1,
        None => states[k + 1].next_id == states[k].next_id,
    }
}

proof fn lemma_counter_is_sends<S>(states: Seq<WorkerView<S>>, ids: Seq<Option<Seq<char>>>, k: int)
    requires
        step_history(states, ids),
        0 <= k <= ids.len(),
    ensures
        states[k].next_id == sends_before(ids, k) + 1,
    decreases k,
{
    if k > 0 {
        lemma_counter_is_sends(states, ids, k - 1);
        assert(ids[k - 1] is Some || ids[k - 1] is None);
    }
}

proof fn lemma_sends_grow(ids: Seq<Option<Seq<char>>>, k: int, l: int)
    requires
        0 <= k < l <= ids.len(),
        ids[k] is Some,
    ensures
        sends_before(ids, k) < sends_before(ids, l),
    decreases l - k,
{
    if l > k + 1 {
        lemma_sends_grow(ids, k, l - 1);
    }
}

/// Whatever else happens between them (answers, disconnects, reconnects,
/// calls that fail at once), the calls that a new worker sends carry the
/// ids "1", "2", ... in the order they were handed in: the call sent after
/// `n` others carries the decimal of `n + 1`, and no two carry the same id.
pub proof fn law_ids_in_submission_order<S>(states: Seq<WorkerView<S>>, ids: Seq<Option<Seq<char>>>)
    requires
        step_history(states, ids),
    ensures
        forall|k: int| 0 <= k < ids.len() && (#[trigger] ids[k]) is Some
            ==> ids[k]->0 == decimal(sends_before(ids, k) + 1),
        forall|k: int, l: int| 0 <= k < l < ids.len() && ids[k] is Some && ids[l] is Some
            ==> ids[k]->0 != ids[l]->0,
{
    assert forall|k: int| 0 <= k < ids.len() && (#[trigger] ids[k]) is Some
        implies ids[k]->0 == decimal(sends_before(ids, k) + 1) by {
        lemma_counter_is_sends(states, ids, k);
    }
    assert forall|k: int, l: int| 0 <= k < l < ids.len() && ids[k] is Some && ids[l] is Some
        implies ids[k]->0 != ids[l]->0 by {
        lemma_counter_is_sends(states, ids, k);
        lemma_counter_is_sends(states, ids, l);
        lemma_sends_grow(ids, k, l);
        assert(ids[k]->0 == decimal(states[k].next_id));
        assert(ids[l]->0 == decimal(states[l].next_id));
        if ids[k]->0 == ids[l]->0 {
            lemma_decimal_injective(states[k].next_id, states[l].next_id);
        }
    }
}

/// An answer goes to the call that carries its id, in whatever order the
/// answers come: the table stays well formed once that call leaves it, so
/// the next answer is matched the same way.
pub proof fn law_answer_reaches_its_call<S>(w: WorkerView<S>, i: int)
    requires
        w.wf(),
        0 <= i < w.pending.len(),
    ensures
        match_pos(w.pending, decimal(w.pending[i].0)) == i,
        (WorkerView { pending: w.pending.remove(i), ..w }).wf(),
{
    let id = decimal(w.pending[i].0);
    assert forall|j: int| 0 <= j < i implies decimal(w.pending[j].0) != id by {
        if decimal(w.pending[j].0) == id {
            lemma_decimal_injective(w.pending[j].0, w.pending[i].0);
        }
    }
    lemma_match_pos(w.pending, id, i);
    let v = WorkerView { pending: w.pending.remove(i), ..w };
    assert forall|a: int, b: int| 0 <= a < b < v.pending.len() implies v.pending[a].0 < v.pending[b].0 by {
        let a2 = if a < i { a } else { a + 1 };
        let b2 = if b < i { b } else { b + 1 };
        assert(v.pending[a] == w.pending[a2]);
        assert(v.pending[b] == w.pending[b2]);
    }
    assert forall|a: int| 0 <= a < v.pending.len() implies 1 <= #[trigger] v.pending[a].0 < v.next_id by {
        let a2 = if a < i { a } else { a + 1 };
        assert(v.pending[a] == w.pending[a2]);
    }
}

/// Once the connection is lost nothing awaits an answer, and calls fail at
/// once until the connection is back; after that they go out again.
pub proof fn law_disconnect_fails_fast<S>(w: WorkerView<S>)
    requires
        w.wf(),
    ensures
        w.closed().wf(),
        w.closed().pending.len() == 0,
        w.closed().aborts_calls(),
        w.next_id < u64::MAX ==> !w.closed().connected().aborts_calls(),
{
}

/// A call handed in after a reconnect goes out, and the answer that carries
/// its id reaches it: nothing of the lost connection is left in the way.
/// The one exception is a counter at the largest `u64`, where no id is left.
pub proof fn law_call_after_reconnect<S>(w: WorkerView<S>, slot: S)
    requires
        w.wf(),
        w.next_id < u64::MAX,
    ensures
        ({
            let v = w.closed().connected();
            let sent = WorkerView { next_id: v.next_id + 1, pending: v.pending.push((v.next_id, slot)), ..v };
            &&& !v.aborts_calls()
            &&& sent.wf()
            &&& match_pos(sent.pending, decimal(v.next_id)) == 0
            &&& sent.pending[0].1 == slot
        }),
{
    let v = w.closed().connected();
    let sent = WorkerView { next_id: v.next_id + 1, pending: v.pending.push((v.next_id, slot)), ..v };
    assert(sent.pending =~= seq![(v.next_id, slot)]);
    lemma_match_pos(sent.pending, decimal(v.next_id), 0);
}

/// Whatever the number of failed attempts, the daemon counts as down after
/// each of them, the next attempt waits at least ten seconds, and the
/// daemon counts as up once an attempt succeeds.
pub proof fn law_reconnect_backoff<S>(w: WorkerView<S>)
    ensures
        !w.down().alive,
        !w.down().down().alive,
        RECONNECT_DELAY_MS >= 10_000,
        w.down().connected().alive,
{
}

} // verus!
