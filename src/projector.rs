use vstd::prelude::*;

use crate::extract::{Extraction, extracted_from, file_paths, json_of_strings, paths_of, strings_json};
use crate::json::{Json, JValue, values_view, members_view, lemma_arr_view, lemma_obj_view};
use crate::model::{Aria2Res, GlobalStat, ItemMetaData, DdlWsMessage, is_status, decodes_status};
use crate::store::{HistoryStore, has_gid, gid_pos, upserted, inserted, marked_lost, owns, after_delete};
use crate::worker::{Aria2JsonRpcResp, opt_values};
use crate::text::{has_prefix, is_prefix, join, opt_text};

verus! {

/// How many downloads one startup multicall asks about.
pub const SYNC_CHUNK: usize = 100;

/// The period of the progress ticker, in milliseconds.
pub const TICK_INTERVAL_MS: u64 = 500;

/// How many messages a user's live stream holds for a slow reader.
pub const LIVE_STREAM_CAPACITY: usize = 100;

/// The sub-call `{methodName: "aria2.tellStatus", params: [gid]}`.
pub open spec fn tell_status_call(gid: Seq<char>) -> JValue {
    JValue::Obj(seq![
        ("methodName"@, JValue::Str("aria2.tellStatus"@)),
        ("params"@, JValue::Arr(seq![JValue::Str(gid)])),
    ])
}

fn tell_status(gid: &String) -> (r: Json)
    ensures
        r@ == tell_status_call(gid@),
{
    let mut params: Vec<Json> = Vec::new();
    params.push(Json::Str(gid.clone()));
    proof { lemma_arr_view(params); }
    let mut fs: Vec<(String, Json)> = Vec::new();
    fs.push((String::from_str("methodName"), Json::Str(String::from_str("aria2.tellStatus"))));
    fs.push((String::from_str("params"), Json::Arr(params)));
    proof {
        lemma_obj_view(fs);
        assert(values_view(params@) =~= seq![JValue::Str(gid@)]);
        assert(members_view(fs@) =~= seq![
            ("methodName"@, JValue::Str("aria2.tellStatus"@)),
            ("params"@, JValue::Arr(seq![JValue::Str(gid@)])),
        ]);
    }
    Json::Obj(fs)
}

/// The parameters of a multicall that asks for the status of each gid.
pub fn tell_status_batch(gids: &Vec<String>) -> (r: Vec<Json>)
    ensures
        values_view(r@) == seq![JValue::Arr(gids@.map_values(|g: String| tell_status_call(g@)))],
{
    let mut calls: Vec<Json> = Vec::new();
    let mut i: usize = 0;
    while i < gids.len()
        invariant
            i <= gids.len(),
            calls@.len() == i,
            forall|k: int| 0 <= k < i ==> (#[trigger] calls@[k])@ == tell_status_call(gids@[k]@),
        decreases gids.len() - i,
    {
        calls.push(tell_status(&gids[i]));
        i = i + 1;
    }
    proof {
        lemma_arr_view(calls);
        assert(values_view(calls@) =~= gids@.map_values(|g: String| tell_status_call(g@)));
    }
    let mut params: Vec<Json> = Vec::new();
    params.push(Json::Arr(calls));
    assert(values_view(params@) =~= seq![JValue::Arr(gids@.map_values(|g: String| tell_status_call(g@)))]);
    params
}

/// The runs of `out` one after the other.
pub open spec fn concat_runs(out: Seq<Vec<String>>) -> Seq<String>
    decreases out.len(),
{
    if out.len() == 0 {
        Seq::empty()
    } else {
        concat_runs(out.drop_last()) + out.last()@
    }
}

/// `out` cuts `items` into runs of `size` in order; only the last run may
/// be shorter, and none is empty.
pub open spec fn is_chunking(items: Seq<String>, size: nat, out: Seq<Vec<String>>) -> bool {
    &&& concat_runs(out) == items
    &&& forall|k: int| 0 <= k < out.len() ==> 0 < (#[trigger] out[k])@.len() <= size
    &&& forall|k: int| 0 <= k < out.len() - 1 ==> (#[trigger] out[k])@.len() == size
}

/// Splits `items` into runs of `size`.
pub fn chunks(items: &Vec<String>, size: usize) -> (r: Vec<Vec<String>>)
    requires
        size > 0,
    ensures
        is_chunking(items@, size as nat, r@),
{
    let n = items.len();
    let mut out: Vec<Vec<String>> = Vec::new();
    let mut start: usize = 0;
    let mut short = false;
    assert(items@.subrange(0, 0) =~= concat_runs(out@));
    while start < n && !short
        invariant
            size > 0,
            n == items@.len(),
            start <= n,
            concat_runs(out@) == items@.subrange(0, start as int),
            forall|k: int| 0 <= k < out@.len() ==> 0 < (#[trigger] out@[k])@.len() <= size,
            !short ==> forall|k: int| 0 <= k < out@.len() ==> (#[trigger] out@[k])@.len() == size,
            short ==> start == n,
            short ==> forall|k: int| 0 <= k < out@.len() - 1 ==> (#[trigger] out@[k])@.len() == size,
        decreases n - start,
    {
        let end: usize = if size <= n - start { start + size } else { n };
        let mut run: Vec<String> = Vec::new();
        let mut i: usize = start;
        while i < end
            invariant
                start <= i <= end <= n,
                n == items@.len(),
                run@ == items@.subrange(start as int, i as int),
            decreases end - i,
        {
            run.push(items[i].clone());
            i = i + 1;
            assert(run@ =~= items@.subrange(start as int, i as int));
        }
        let ghost before = out@;
        out.push(run);
        proof {
            assert(out@.drop_last() =~= before);
            assert(concat_runs(out@) =~= items@.subrange(0, end as int));
        }
        short = end - start < size;
        start = end;
    }
    assert(items@.subrange(0, n as int) =~= items@);
    out
}

// ---- notifications ----

/// The gid a notification is about: the `gid` string of the first
/// parameter of any `aria2.on...` notification.
pub open spec fn event_gid_of(method: Option<Seq<char>>, params: Option<Seq<JValue>>) -> Option<Seq<char>> {
    match method {
        Some(m) => if is_prefix("aria2.on"@, m) && params is Some && params->0.len() > 0 {
            match params->0[0].member("gid"@) {
                Some(JValue::Str(g)) => Some(g),
                _ => None,
            }
        } else {
            None
        },
        None => None,
    }
}

pub fn event_gid(msg: &Aria2JsonRpcResp) -> (r: Option<String>)
    ensures
        opt_text(r) == event_gid_of(opt_text(msg.method), opt_values(msg.params)),
{
    let m = match &msg.method {
        Some(m) => m,
        None => return None,
    };
    if !has_prefix(m.as_str(), "aria2.on") {
        return None;
    }
    match &msg.params {
        Some(p) => {
            if p.len() == 0 {
                return None;
            }
            proof { assert(values_view(p@)[0] == p@[0]@); }
            match p[0].get("gid") {
                Some(g) => match g.as_str() {
                    Some(s) => Some(s.clone()),
                    None => None,
                },
                None => None,
            }
        },
        None => None,
    }
}

// ---- reconciliation ----

/// The reported row `meta` with the owner, creation and completion times
/// of the stored row `row`.
pub open spec fn reported(meta: ItemMetaData, row: ItemMetaData) -> ItemMetaData {
    ItemMetaData { user_id: row.user_id, created_at: row.created_at, completed_at: row.completed_at, ..meta }
}

/// What an upsert of `meta` at `now` did to the table `old`, giving `new`,
/// and the live-stream message `r` it published: the reported row with the
/// owner, creation and completion times of the updated row filled in, to
/// that owner; or nothing for an unknown gid.
pub open spec fn upsert_outcome(
    old: Seq<ItemMetaData>,
    new: Seq<ItemMetaData>,
    meta: ItemMetaData,
    now: i64,
    r: Option<DdlWsMessage>,
) -> bool {
    if has_gid(old, meta.gid@) {
        let i = gid_pos(old, meta.gid@) as int;
        let row = upserted(old[i], meta, now);
        &&& new == old.update(i, row)
        &&& r == Some(DdlWsMessage::Event { user_id: row.user_id, data: reported(meta, row) })
    } else {
        new == old && r is None
    }
}



/// What the startup pass does with the answer about one download.
pub enum SyncAction {
    /// The daemon knows it: write this row.
    Refresh(ItemMetaData),
    /// The daemon has lost it: mark the row failed.
    SessionLost,
    /// Leave the row as it is.
    Keep,
}

/// The `code` of the `error` object of a multicall answer.
pub open spec fn error_code_of(v: JValue) -> Option<int> {
    match v.member("error"@) {
        Some(e) => match e.member("code"@) {
            Some(JValue::Int(n)) => Some(n),
            _ => None,
        },
        None => None,
    }
}

/// Decides what to do with one multicall answer about download `gid`: a
/// non-empty array carries its status; an error with code 1 means the
/// daemon lost it; anything else leaves the row alone.
pub fn sync_decision(result: &Json, gid: &str) -> (r: SyncAction)
    ensures
        match result@ {
            JValue::Arr(a) => if a.len() > 0 {
                r matches SyncAction::Refresh(m) && extracted_from(a[0], gid@, m)
            } else {
                r is Keep
            },
            _ => if error_code_of(result@) == Some(1int) { r is SessionLost } else { r is Keep },
        },
{
    match result.as_array() {
        Some(a) => {
            if a.len() > 0 {
                proof { assert(values_view(a@)[0] == a@[0]@); }
                SyncAction::Refresh(Extraction::extract(&a[0], gid))
            } else {
                SyncAction::Keep
            }
        },
        None => {
            let code = match result.get("error") {
                Some(e) => match e.get("code") {
                    Some(c) => c.as_i64(),
                    None => None,
                },
                None => None,
            };
            match code {
                Some(c) => if c == 1 { SyncAction::SessionLost } else { SyncAction::Keep },
                None => SyncAction::Keep,
            }
        },
    }
}

/// One step of the startup pass: the table `old` becomes `new` on the
/// answer `result` about download `gid`, publishing `ev`.
pub open spec fn sync_step(
    old: Seq<ItemMetaData>,
    new: Seq<ItemMetaData>,
    gid: Seq<char>,
    result: JValue,
    now: i64,
    ev: Option<DdlWsMessage>,
) -> bool {
    match result {
        JValue::Arr(a) => if a.len() > 0 {
            exists|m: ItemMetaData| extracted_from(a[0], gid, m) && #[trigger] upsert_outcome(old, new, m, now, ev)
        } else {
            new == old && ev is None
        },
        _ => ev is None && if error_code_of(result) == Some(1int) {
            marked_lost(old, new, gid)
        } else {
            new == old
        },
    }
}

/// The messages that were published, in order.
pub open spec fn published(evs: Seq<Option<DdlWsMessage>>) -> Seq<DdlWsMessage>
    decreases evs.len(),
{
    if evs.len() == 0 {
        Seq::empty()
    } else {
        let rest = published(evs.drop_last());
        match evs.last() {
            Some(m) => rest.push(m),
            None => rest,
        }
    }
}

/// The answers of a startup multicall that are paired with a gid.
pub open spec fn sync_answers(response: JValue, n: nat) -> Seq<JValue> {
    match response {
        JValue::Arr(a) => if a.len() < n { a } else { a.subrange(0, n as int) },
        _ => Seq::empty(),
    }
}

/// `states` leads from `old` to `new`, one step per answer.
pub open spec fn sync_steps(
    states: Seq<Seq<ItemMetaData>>,
    evs: Seq<Option<DdlWsMessage>>,
    old: Seq<ItemMetaData>,
    new: Seq<ItemMetaData>,
    gids: Seq<String>,
    answers: Seq<JValue>,
    now: i64,
) -> bool {
    &&& states.len() == answers.len() + 1
    &&& evs.len() == answers.len()
    &&& states[0] == old
    &&& states[answers.len() as int] == new
    &&& forall|k: int| 0 <= k < answers.len() ==> #[trigger] sync_step(states[k], states[k + 1], gids[k]@, answers[k], now, evs[k])
}

/// Rows keep their gid, owner and creation time.
pub open spec fn same_rows(old: Seq<ItemMetaData>, new: Seq<ItemMetaData>) -> bool {
    &&& new.len() == old.len()
    &&& forall|j: int| 0 <= j < old.len() ==> (#[trigger] new[j]).gid@ == old[j].gid@
        && new[j].user_id == old[j].user_id && new[j].created_at == old[j].created_at
}


// ---- ticks ----

/// A progress write for the row of `gid`.
pub struct ProgressWrite {
    pub gid: String,
    pub files: Option<String>,
    pub completed: String,
    pub total: String,
    pub uploaded: String,
}

/// The progress write that the status `res` of download `gid` asks for.
pub open spec fn progress_for(gid: Seq<char>, res: Aria2Res, w: ProgressWrite) -> bool {
    &&& w.gid@ == gid
    &&& opt_text(w.files) == Some(json_of_strings(file_paths(res.files@)))
    &&& w.completed@ == res.completed_length@
    &&& w.total@ == res.total_length@
    &&& w.uploaded@ == res.upload_length@
}

pub fn progress_of(gid: &String, res: &Aria2Res) -> (w: ProgressWrite)
    ensures
        progress_for(gid@, *res, w),
{
    let paths = paths_of(&res.files);
    ProgressWrite {
        gid: gid.clone(),
        files: Some(strings_json(&paths)),
        completed: res.completed_length.clone(),
        total: res.total_length.clone(),
        uploaded: res.upload_length.clone(),
    }
}

/// The status object in the `i`-th multicall answer of a tick, if it is
/// an array whose first element decodes.
pub open spec fn tick_task(results: Seq<JValue>, i: int) -> Option<JValue> {
    match results[i].first() {
        Some(f) => if is_status(f) { Some(f) } else { None },
        None => None,
    }
}

/// The status objects, in order, of the first `n` answers whose download
/// `u` owns.
pub open spec fn user_tasks(active: Seq<(Seq<char>, i64)>, results: Seq<JValue>, u: i64, n: nat) -> Seq<JValue>
    decreases n,
{
    if n == 0 {
        Seq::empty()
    } else {
        let rest = user_tasks(active, results, u, (n - 1) as nat);
        let i = n - 1;
        if tick_task(results, i) is Some && active[i].1 == u {
            rest.push(tick_task(results, i)->0)
        } else {
            rest
        }
    }
}

/// The owners of the first `n` answers that carry a status, each once, in
/// order of first appearance.
pub open spec fn tick_users(active: Seq<(Seq<char>, i64)>, results: Seq<JValue>, n: nat) -> Seq<i64>
    decreases n,
{
    if n == 0 {
        Seq::empty()
    } else {
        let rest = tick_users(active, results, (n - 1) as nat);
        let i = n - 1;
        if tick_task(results, i) is Some && !rest.contains(active[i].1) {
            rest.push(active[i].1)
        } else {
            rest
        }
    }
}

/// The positions of the first `n` answers that carry a status.
pub open spec fn tick_indices(results: Seq<JValue>, n: nat) -> Seq<int>
    decreases n,
{
    if n == 0 {
        Seq::empty()
    } else {
        let rest = tick_indices(results, (n - 1) as nat);
        if tick_task(results, n - 1) is Some { rest.push(n - 1) } else { rest }
    }
}

/// `w` is the progress write for the status object `task` of download `gid`.
pub open spec fn write_for(gid: Seq<char>, task: JValue, w: ProgressWrite) -> bool {
    exists|res: Aria2Res| decodes_status(task, res) && #[trigger] progress_for(gid, res, w)
}

/// The answers of a tick, or none where the response is not an array.
pub open spec fn tick_results(response: JValue) -> Seq<JValue> {
    match response {
        JValue::Arr(a) => a,
        _ => Seq::empty(),
    }
}

pub open spec fn tick_len(active: Seq<(Seq<char>, i64)>, response: JValue) -> nat {
    let results = tick_results(response);
    if results.len() < active.len() { results.len() } else { active.len() }
}

pub proof fn lemma_absent_user_has_no_tasks(active: Seq<(Seq<char>, i64)>, results: Seq<JValue>, u: i64, n: nat)
    requires
        n <= active.len(),
        n <= results.len(),
        !tick_users(active, results, n).contains(u),
    ensures
        user_tasks(active, results, u, n).len() == 0,
    decreases n,
{
    if n > 0 {
        let rest = tick_users(active, results, (n - 1) as nat);
        let all = tick_users(active, results, n);
        if tick_task(results, n - 1) is Some && !rest.contains(active[n - 1].1) {
            assert(all == rest.push(active[n - 1].1));
            assert(all[all.len() - 1] == active[n - 1].1);
            if rest.contains(u) {
                let k = choose|k: int| 0 <= k < rest.len() && rest[k] == u;
                assert(all[k] == u);
            }
        } else {
            assert(all == rest);
            if tick_task(results, n - 1) is Some && active[n - 1].1 == u {
                assert(rest.contains(u));
            }
        }
        lemma_absent_user_has_no_tasks(active, results, u, (n - 1) as nat);
    }
}

/// Each owner gets one tick message, and the owner of every answer that
/// carries a status is among those who get one.
pub proof fn law_tick_one_message_per_user(active: Seq<(Seq<char>, i64)>, results: Seq<JValue>, n: nat)
    requires
        n <= active.len(),
        n <= results.len(),
    ensures
        forall|a: int, b: int| 0 <= a < b < tick_users(active, results, n).len()
            ==> tick_users(active, results, n)[a] != tick_users(active, results, n)[b],
        forall|i: int| 0 <= i < n && (#[trigger] tick_task(results, i)) is Some
            ==> tick_users(active, results, n).contains(active[i].1),
    decreases n,
{
    if n > 0 {
        law_tick_one_message_per_user(active, results, (n - 1) as nat);
        let rest = tick_users(active, results, (n - 1) as nat);
        let now = tick_users(active, results, n);
        if tick_task(results, n - 1) is Some && !rest.contains(active[n - 1].1) {
            assert(now == rest.push(active[n - 1].1));
            assert forall|a: int, b: int| 0 <= a < b < now.len() implies now[a] != now[b] by {
                if b == now.len() - 1 {
                    assert(now[a] == rest[a]);
                    if now[a] == now[b] {
                        assert(rest.contains(active[n - 1].1));
                    }
                } else {
                    assert(now[a] == rest[a]);
                    assert(now[b] == rest[b]);
                }
            }
            assert forall|i: int| 0 <= i < n && (#[trigger] tick_task(results, i)) is Some implies now.contains(active[i].1) by {
                if i < n - 1 {
                    let k = choose|k: int| 0 <= k < rest.len() && rest[k] == active[i].1;
                    assert(now[k] == active[i].1);
                } else {
                    assert(now[now.len() - 1] == active[i].1);
                }
            }
        } else {
            assert(now == rest);
        }
    }
}

/// With two active downloads of two different owners, each answered with a
/// status, a tick goes to each owner once, carrying that owner's status
/// alone.
pub proof fn law_tick_two_owners(ga: Seq<char>, a: i64, gb: Seq<char>, b: i64, sa: JValue, sb: JValue)
    requires
        a != b,
        is_status(sa),
        is_status(sb),
    ensures
        ({
            let active = seq![(ga, a), (gb, b)];
            let results = seq![JValue::Arr(seq![sa]), JValue::Arr(seq![sb])];
            &&& tick_users(active, results, 2) == seq![a, b]
            &&& user_tasks(active, results, a, 2) == seq![sa]
            &&& user_tasks(active, results, b, 2) == seq![sb]
        }),
{
    let active = seq![(ga, a), (gb, b)];
    let results = seq![JValue::Arr(seq![sa]), JValue::Arr(seq![sb])];
    assert(tick_task(results, 0) == Some(sa));
    assert(tick_task(results, 1) == Some(sb));
    assert(tick_users(active, results, 0) =~= Seq::<i64>::empty());
    assert(tick_users(active, results, 1) =~= seq![a]);
    assert(!seq![a].contains(b));
    assert(tick_users(active, results, 2) =~= seq![a, b]);
    assert(user_tasks(active, results, a, 0) =~= Seq::<JValue>::empty());
    assert(user_tasks(active, results, a, 1) =~= seq![sa]);
    assert(user_tasks(active, results, a, 2) =~= seq![sa]);
    assert(user_tasks(active, results, b, 0) =~= Seq::<JValue>::empty());
    assert(user_tasks(active, results, b, 1) =~= Seq::<JValue>::empty());
    assert(user_tasks(active, results, b, 2) =~= seq![sb]);
}

/// `msg` is the tick for owner `u` with the statuses `tasks`.
pub open spec fn tick_message_for(msg: DdlWsMessage, u: i64, global: GlobalStat, tasks: Seq<JValue>) -> bool {
    match msg {
        DdlWsMessage::Tick { user_id, global: g, tasks: ts } => {
            &&& user_id == u
            &&& g == global
            &&& ts@.len() == tasks.len()
            &&& forall|j: int| 0 <= j < tasks.len() ==> decodes_status(tasks[j], #[trigger] ts@[j])
        },
        _ => false,
    }
}


/// Reconciles the daemon's view of downloads into the history and the
/// owners' live streams.
pub struct HistoryService;

impl HistoryService {
    /// Writes what the daemon reported into the history and gives the message
    /// for the owner's live stream.
    pub fn upsert_db(store: &mut HistoryStore, meta: &ItemMetaData, now: i64) -> (r: Option<DdlWsMessage>)
        ensures
            upsert_outcome(old(store)@, final(store)@, *meta, now, r),
    {
        let r = store.upsert_from_daemon(meta, now);
        match r {
            None => None,
            Some((user_id, created_at, completed_at)) => {
                let data = ItemMetaData { user_id, created_at, completed_at, ..meta.copy() };
                Some(DdlWsMessage::Event { user_id, data })
            },
        }
    }

    /// Reconciles download `gid` with the status object the daemon sent.
    pub fn refresh_gid(store: &mut HistoryStore, gid: &str, status: &Json, now: i64) -> (r: Option<DdlWsMessage>)
        ensures
            exists|m: ItemMetaData| extracted_from(status@, gid@, m)
                && #[trigger] upsert_outcome(old(store)@, final(store)@, m, now, r),
    {
        let meta = Extraction::extract(status, gid);
        let r = Self::upsert_db(store, &meta, now);
        assert(extracted_from(status@, gid@, meta) && upsert_outcome(old(store)@, final(store)@, meta, now, r));
        r
    }

    /// Applies the answer of one startup multicall about the downloads `gids`
    /// and gives the live-stream messages of the rows it updated: the table
    /// takes one step per answer, in order.
    pub fn sync_chunk(store: &mut HistoryStore, gids: &Vec<String>, response: &Json, now: i64) -> (r: Vec<DdlWsMessage>)
        ensures
            same_rows(old(store)@, final(store)@),
            exists|states: Seq<Seq<ItemMetaData>>, evs: Seq<Option<DdlWsMessage>>| #[trigger] sync_steps(
                states,
                evs,
                old(store)@,
                final(store)@,
                gids@,
                sync_answers(response@, gids@.len()),
                now,
            ) && r@ == published(evs),
    {
        let mut events: Vec<DdlWsMessage> = Vec::new();
        let ghost mut states: Seq<Seq<ItemMetaData>> = seq![store@];
        let ghost mut evs: Seq<Option<DdlWsMessage>> = Seq::empty();
        let results = match response.as_array() {
            Some(a) => a,
            None => {
                assert(sync_steps(states, evs, old(store)@, store@, gids@, sync_answers(response@, gids@.len()), now));
                assert(events@ =~= published(evs));
                return events;
            },
        };
        let ghost rv = values_view(results@);
        let n = if results.len() < gids.len() { results.len() } else { gids.len() };
        let ghost answers = sync_answers(response@, gids@.len());
        assert(answers =~= rv.subrange(0, n as int));
        let mut i: usize = 0;
        while i < n
            invariant
                n <= gids.len(),
                n <= results.len(),
                rv == values_view(results@),
                answers == rv.subrange(0, n as int),
                i <= n,
                same_rows(old(store)@, store@),
                states.len() == i + 1,
                states[0] == old(store)@,
                states[i as int] == store@,
                evs.len() == i,
                events@ == published(evs),
                forall|k: int| 0 <= k < i ==> #[trigger] sync_step(states[k], states[k + 1], gids@[k]@, rv[k], now, evs[k]),
            decreases n - i,
        {
            let ghost before = store@;
            let ghost prev_events = events@;
            let ghost mut ev: Option<DdlWsMessage> = None;
            assert(rv[i as int] == results@[i as int]@);
            match sync_decision(&results[i], gids[i].as_str()) {
                SyncAction::Refresh(meta) => {
                    let out = Self::upsert_db(store, &meta, now);
                    proof { ev = out; }
                    assert(extracted_from(rv[i as int]->Arr_0[0], gids@[i as int]@, meta));
                    assert(upsert_outcome(before, store@, meta, now, ev));
                    match out {
                        Some(msg) => events.push(msg),
                        None => {},
                    }
                },
                SyncAction::SessionLost => {
                    store.mark_session_lost(gids[i].as_str());
                },
                SyncAction::Keep => {},
            }
            proof {
                let old_states = states;
                let old_evs = evs;
                states = states.push(store@);
                evs = evs.push(ev);
                assert(evs.drop_last() =~= old_evs);
                assert(events@ =~= published(evs));
                assert forall|k: int| 0 <= k < i + 1 implies #[trigger] sync_step(states[k], states[k + 1], gids@[k]@, rv[k], now, evs[k]) by {
                    if k < i {
                        assert(states[k] == old_states[k]);
                        assert(states[k + 1] == old_states[k + 1]);
                        assert(evs[k] == old_evs[k]);
                    }
                }
            }
            i = i + 1;
        }
        assert(sync_steps(states, evs, old(store)@, store@, gids@, answers, now));
        events
    }

    /// The tick messages and progress writes for one round: one `Tick` per
    /// owner, carrying the statuses of that owner's downloads alone, and one
    /// progress write per status.
    pub fn tick(global: &GlobalStat, active: &Vec<(String, i64)>, response: &Json)
        -> (r: (Vec<DdlWsMessage>, Vec<ProgressWrite>))
        ensures
            ({
                let av = active@.map_values(|p: (String, i64)| (p.0@, p.1));
                let results = tick_results(response@);
                let n = tick_len(av, response@);
                let users = tick_users(av, results, n);
                let idx = tick_indices(results, n);
                &&& r.1@.len() == idx.len()
                &&& forall|k: int| 0 <= k < idx.len() ==> write_for(
                    av[idx[k]].0,
                    tick_task(results, idx[k])->0,
                    #[trigger] r.1@[k],
                )
                &&& r.0@.len() == users.len()
                &&& forall|k: int| 0 <= k < users.len() ==> tick_message_for(
                    #[trigger] r.0@[k],
                    users[k],
                    *global,
                    user_tasks(av, results, users[k], n),
                )
            }),
    {
        let ghost av = active@.map_values(|p: (String, i64)| (p.0@, p.1));
        let mut users: Vec<i64> = Vec::new();
        let mut tasks: Vec<Vec<Aria2Res>> = Vec::new();
        let mut writes: Vec<ProgressWrite> = Vec::new();
        let results = match response.as_array() {
            Some(a) => a,
            None => {
                let msgs: Vec<DdlWsMessage> = Vec::new();
                assert(tick_users(av, Seq::empty(), 0) =~= Seq::<i64>::empty());
                assert(tick_indices(Seq::empty(), 0) =~= Seq::<int>::empty());
                return (msgs, writes);
            },
        };
        let ghost rv = values_view(results@);
        let n = if results.len() < active.len() { results.len() } else { active.len() };
        let mut i: usize = 0;
        while i < n
            invariant
                rv == values_view(results@),
                rv == tick_results(response@),
                av == active@.map_values(|p: (String, i64)| (p.0@, p.1)),
                n <= results.len(),
                n <= active.len(),
                i <= n,
                users@ == tick_users(av, rv, i as nat),
                writes@.len() == tick_indices(rv, i as nat).len(),
                forall|k: int| 0 <= k < writes@.len() ==> write_for(
                    av[tick_indices(rv, i as nat)[k]].0,
                    tick_task(rv, tick_indices(rv, i as nat)[k])->0,
                    #[trigger] writes@[k],
                ),
                tasks@.len() == users@.len(),
                forall|a: int, b: int| 0 <= a < b < users@.len() ==> users@[a] != users@[b],
                forall|k: int| 0 <= k < users@.len() ==> (#[trigger] tasks@[k])@.len()
                    == user_tasks(av, rv, users@[k], i as nat).len(),
                forall|k: int, j: int| 0 <= k < users@.len() && 0 <= j < tasks@[k]@.len() ==> decodes_status(
                    user_tasks(av, rv, users@[k], i as nat)[j],
                    #[trigger] tasks@[k]@[j],
                ),
            decreases n - i,
        {
            assert(rv[i as int] == results@[i as int]@);
            let task = match results[i].as_array() {
                Some(a) => if a.len() > 0 {
                    proof { assert(values_view(a@)[0] == a@[0]@); }
                    Aria2Res::from_json(&a[0])
                } else {
                    None
                },
                None => None,
            };
            match task {
                None => {
                    proof {
                        assert(tick_task(rv, i as int) is None);
                        assert(tick_indices(rv, (i + 1) as nat) == tick_indices(rv, i as nat));
                        assert forall|k: int| 0 <= k < users@.len() implies user_tasks(av, rv, users@[k], (i + 1) as nat)
                            == user_tasks(av, rv, users@[k], i as nat) by {}
                    }
                },
                Some(res) => {
                    let u = active[i].1;
                    let ghost prev_writes = writes@;
                    let w = progress_of(&active[i].0, &res);
                    proof {
                        assert(av[i as int].0 == active@[i as int].0@);
                        assert(write_for(av[i as int].0, tick_task(rv, i as int)->0, w));
                    }
                    writes.push(w);
                    proof {
                        let idx = tick_indices(rv, (i + 1) as nat);
                        assert(idx == tick_indices(rv, i as nat).push(i as int));
                        assert forall|k: int| 0 <= k < writes@.len() implies write_for(
                            av[idx[k]].0,
                            tick_task(rv, idx[k])->0,
                            #[trigger] writes@[k],
                        ) by {
                            if k < prev_writes.len() {
                                assert(writes@[k] == prev_writes[k]);
                                assert(idx[k] == tick_indices(rv, i as nat)[k]);
                            }
                        }
                    }
                    let ghost f = tick_task(rv, i as int)->0;
                    assert(tick_task(rv, i as int) is Some);
                    assert(av[i as int].1 == u);
                    let mut k: usize = 0;
                    while k < users.len()
                        invariant
                            k <= users@.len(),
                            forall|j: int| 0 <= j < k ==> users@[j] != u,
                        ensures
                            k <= users@.len(),
                            forall|j: int| 0 <= j < k ==> users@[j] != u,
                            k < users@.len() ==> users@[k as int] == u,
                        decreases users.len() - k,
                    {
                        if users[k] == u {
                            break;
                        }
                        k = k + 1;
                    }
                    if k < users.len() {
                        let ghost old_tasks = tasks@;
                        let mut t = tasks.remove(k);
                        t.push(res);
                        tasks.insert(k, t);
                        proof {
                            assert(users@.contains(u));
                            assert(tick_users(av, rv, (i + 1) as nat) == users@);
                            assert forall|kk: int| 0 <= kk < users@.len() implies (#[trigger] tasks@[kk])@.len()
                                == user_tasks(av, rv, users@[kk], (i + 1) as nat).len() by {
                                if kk != k {
                                    assert(tasks@[kk] == old_tasks[kk]);
                                }
                            }
                            assert forall|kk: int, j: int| 0 <= kk < users@.len() && 0 <= j < tasks@[kk]@.len()
                                implies decodes_status(user_tasks(av, rv, users@[kk], (i + 1) as nat)[j], #[trigger] tasks@[kk]@[j]) by {
                                if kk != k {
                                    assert(tasks@[kk] == old_tasks[kk]);
                                } else if j < old_tasks[kk]@.len() {
                                    assert(tasks@[kk]@[j] == old_tasks[kk]@[j]);
                                }
                            }
                        }
                    } else {
                        proof {
                            assert(!users@.contains(u));
                            lemma_absent_user_has_no_tasks(av, rv, u, i as nat);
                        }
                        let ghost old_tasks = tasks@;
                        let ghost old_users = users@;
                        users.push(u);
                        let mut t: Vec<Aria2Res> = Vec::new();
                        t.push(res);
                        tasks.push(t);
                        proof {
                            assert(tick_users(av, rv, (i + 1) as nat) == users@);
                            assert forall|a: int, b: int| 0 <= a < b < users@.len() implies users@[a] != users@[b] by {
                                if b == users@.len() - 1 {
                                    assert(users@[a] == old_users[a]);
                                }
                            }
                            assert forall|kk: int| 0 <= kk < users@.len() implies (#[trigger] tasks@[kk])@.len()
                                == user_tasks(av, rv, users@[kk], (i + 1) as nat).len() by {
                                if kk < old_users.len() {
                                    assert(tasks@[kk] == old_tasks[kk]);
                                    assert(users@[kk] == old_users[kk]);
                                }
                            }
                            assert forall|kk: int, j: int| 0 <= kk < users@.len() && 0 <= j < tasks@[kk]@.len()
                                implies decodes_status(user_tasks(av, rv, users@[kk], (i + 1) as nat)[j], #[trigger] tasks@[kk]@[j]) by {
                                if kk < old_users.len() {
                                    assert(tasks@[kk] == old_tasks[kk]);
                                    assert(users@[kk] == old_users[kk]);
                                }
                            }
                        }
                    }
                },
            }
            i = i + 1;
        }
        let ghost all_users = users@;
        let ghost all_tasks = tasks@;
        let ghost nn = n as nat;
        let mut msgs: Vec<DdlWsMessage> = Vec::new();
        let mut m: usize = 0;
        let total = users.len();
        while tasks.len() > 0
            invariant
                total == all_users.len(),
                users@ == all_users,
                msgs@.len() + tasks@.len() == total,
                tasks@ == all_tasks.subrange(msgs@.len() as int, total as int),
                all_tasks.len() == total,
                forall|k: int| 0 <= k < total ==> (#[trigger] all_tasks[k])@.len()
                    == user_tasks(av, rv, all_users[k], nn).len(),
                forall|k: int, j: int| 0 <= k < total && 0 <= j < all_tasks[k]@.len() ==> decodes_status(
                    user_tasks(av, rv, all_users[k], nn)[j],
                    #[trigger] all_tasks[k]@[j],
                ),
                forall|k: int| 0 <= k < msgs@.len() ==> tick_message_for(
                    #[trigger] msgs@[k],
                    all_users[k],
                    *global,
                    user_tasks(av, rv, all_users[k], nn),
                ),
            decreases tasks@.len(),
        {
            let k = msgs.len();
            let t = tasks.remove(0);
            assert(t == all_tasks[k as int]);
            msgs.push(DdlWsMessage::Tick { user_id: users[k], global: global.copy(), tasks: t });
            assert(tasks@ =~= all_tasks.subrange(msgs@.len() as int, total as int));
        }
        (msgs, writes)
    }
}

/// The query of a history page.
pub struct PaginationQuery {
    pub page: Option<u32>,
    pub limit: Option<u32>,
}

impl PaginationQuery {
    /// The page asked for; the first by default.
    pub fn page_or_default(&self) -> (r: u32)
        ensures
            r == match self.page {
                Some(p) => p,
                None => 1,
            },
    {
        match self.page {
            Some(p) => p,
            None => 1,
        }
    }

    /// The page size asked for; twenty by default.
    pub fn limit_or_default(&self) -> (r: u32)
        ensures
            r == match self.limit {
                Some(l) => l,
                None => 20,
            },
    {
        match self.limit {
            Some(l) => l,
            None => 20,
        }
    }
}

/// Deletes history rows, and the downloaded files too where asked.
pub struct DeleteHistoryRequest {
    pub gids: Vec<String>,
    pub delete_file: bool,
}

/// First records of downloads that a user added.
pub struct History;

impl History {
    /// Records the download `gid` that `user_id` added from `source_uri`,
    /// from the status object the daemon sent for it (an empty object where
    /// it sent none).
    pub fn uri_his(
        store: &mut HistoryStore,
        status: &Json,
        gid: &str,
        user_id: i64,
        source_uri: &String,
        now: i64,
    ) -> (added: bool)
        ensures
            added == !has_gid(old(store)@, gid@),
            exists|m: ItemMetaData| #[trigger] extracted_from(status@, gid@, m) && final(store)@ == inserted(
                old(store)@,
                ItemMetaData { source_uri: Some(*source_uri), ..m },
                user_id,
                now,
            ),
    {
        let m = Extraction::extract(status, gid);
        let ghost m0 = m;
        let meta = ItemMetaData { source_uri: Some(source_uri.clone()), ..m };
        let added = store.insert_initial(user_id, &meta, now);
        assert(extracted_from(status@, gid@, m0));
        added
    }

    /// Records the torrent download `gid` that `user_id` added, from the
    /// status object the daemon sent for it.
    pub fn torrent_his(store: &mut HistoryStore, status: &Json, gid: &str, user_id: i64, now: i64) -> (added: bool)
        ensures
            added == !has_gid(old(store)@, gid@),
            exists|m: ItemMetaData| #[trigger] extracted_from(status@, gid@, m)
                && final(store)@ == inserted(old(store)@, m, user_id, now),
    {
        let m = Extraction::extract(status, gid);
        let added = store.insert_initial(user_id, &m, now);
        assert(extracted_from(status@, gid@, m));
        added
    }
}

/// The path of `name` inside the directory `dir`.
pub uninterp spec fn path_joined(dir: Seq<char>, name: Seq<char>) -> Seq<char>;

/// Relies on `std::path::Path::join` and `Path::display`: the path depends
/// on the two texts alone.
#[verifier::external_body]
fn join_path(dir: &str, name: &str) -> (r: String)
    ensures
        r@ == path_joined(dir@, name@),
{
    std::path::Path::new(dir).join(name).display().to_string()
}

/// What deleting one history row asks of the disk and the daemon.
pub struct Removal {
    /// The download whose result the daemon should forget.
    pub gid: String,
    /// The downloaded path and its control file, where the files go too.
    pub files: Option<(String, String)>,
}

/// The table after `user_id` deleted the rows of the first `n` gids.
pub open spec fn after_deletes(rows: Seq<ItemMetaData>, user_id: i64, gids: Seq<String>, n: nat) -> Seq<ItemMetaData>
    decreases n,
{
    if n == 0 || n > gids.len() {
        rows
    } else {
        after_delete(after_deletes(rows, user_id, gids, (n - 1) as nat), user_id, gids[n - 1]@)
    }
}

/// The files of a row: its path and control file, where both its
/// directory and its name are known and not empty.
pub open spec fn files_of_row(r: ItemMetaData, files: Option<(String, String)>) -> bool {
    &&& files is Some ==> r.dir is Some && r.name is Some
    &&& files matches Some((p, c)) ==> {
        let d = r.dir->0@;
        let n = r.name->0@;
        p@ == path_joined(d, n) && c@ == path_joined(d, n) + ".aria2"@
    }
    &&& (r.dir matches Some(d) && r.name matches Some(n) && d@.len() > 0 && n@.len() > 0) ==> files is Some
}

/// The row of `gid` in `rows`.
pub open spec fn row_of(rows: Seq<ItemMetaData>, gid: Seq<char>) -> ItemMetaData {
    rows[gid_pos(rows, gid) as int]
}

/// The removal for the `i`-th gid, deleted from the table `rows`.
pub open spec fn removal_ok(rows: Seq<ItemMetaData>, gid: Seq<char>, delete_file: bool, r: Removal) -> bool {
    &&& r.gid@ == gid
    &&& delete_file ==> files_of_row(row_of(rows, gid), r.files)
    &&& !delete_file ==> r.files is None
}

impl HistoryService {
    /// Deletes the row of `gid` if `user_id` owns it, and says what to
    /// remove from the disk (where the files go too).
    fn delete_one(store: &mut HistoryStore, user_id: i64, gid: &String, delete_file: bool) -> (r: Option<Removal>)
        ensures
            final(store)@ == after_delete(old(store)@, user_id, gid@),
            r is Some <==> owns(old(store)@, user_id, gid@),
            r matches Some(rm) ==> removal_ok(old(store)@, gid@, delete_file, rm),
    {
        let files = match store.get(gid.as_str()) {
            Some(row) => if row.user_id == user_id && delete_file {
                match (&row.dir, &row.name) {
                    (Some(d), Some(n)) => if d.unicode_len() > 0 && n.unicode_len() > 0 {
                        let p = join_path(d.as_str(), n.as_str());
                        let c = join(p.as_str(), ".aria2");
                        Some((p, c))
                    } else {
                        None
                    },
                    _ => None,
                }
            } else {
                None
            },
            None => None,
        };
        if store.delete_for_user(user_id, gid.as_str()) == 1 {
            Some(Removal { gid: gid.clone(), files })
        } else {
            None
        }
    }

    /// Deletes the rows of `req.gids` that `user_id` owns, in order, and
    /// says for each of them what to remove from the disk (where the files
    /// go too) and which result the daemon should forget.
    pub fn delete_history(store: &mut HistoryStore, user_id: i64, req: &DeleteHistoryRequest) -> (r: Vec<Removal>)
        ensures
            final(store)@ == after_deletes(old(store)@, user_id, req.gids@, req.gids@.len() as nat),
            ({
                let steps = owned_steps(old(store)@, user_id, req.gids@, req.gids@.len() as nat);
                &&& r@.len() == steps.len()
                &&& forall|k: int| 0 <= k < r@.len() ==> removal_ok(
                    after_deletes(old(store)@, user_id, req.gids@, steps[k] as nat),
                    req.gids@[steps[k]]@,
                    req.delete_file,
                    #[trigger] r@[k],
                )
            }),
    {
        let mut out: Vec<Removal> = Vec::new();
        let ghost start = store@;
        let mut i: usize = 0;
        while i < req.gids.len()
            invariant
                i <= req.gids@.len(),
                store@ == after_deletes(start, user_id, req.gids@, i as nat),
                out@.len() == owned_steps(start, user_id, req.gids@, i as nat).len(),
                forall|k: int| 0 <= k < out@.len() ==> removal_ok(
                    after_deletes(start, user_id, req.gids@, owned_steps(start, user_id, req.gids@, i as nat)[k] as nat),
                    req.gids@[owned_steps(start, user_id, req.gids@, i as nat)[k]]@,
                    req.delete_file,
                    #[trigger] out@[k],
                ),
            decreases req.gids@.len() - i,
        {
            let ghost prev = out@;
            let ghost steps = owned_steps(start, user_id, req.gids@, i as nat);
            let removed = Self::delete_one(store, user_id, &req.gids[i], req.delete_file);
            match removed {
                Some(rm) => out.push(rm),
                None => {},
            }
            proof {
                let next = owned_steps(start, user_id, req.gids@, (i + 1) as nat);
                assert forall|k: int| 0 <= k < out@.len() implies removal_ok(
                    after_deletes(start, user_id, req.gids@, next[k] as nat),
                    req.gids@[next[k]]@,
                    req.delete_file,
                    #[trigger] out@[k],
                ) by {
                    if k < prev.len() {
                        assert(out@[k] == prev[k]);
                        assert(next[k] == steps[k]);
                    }
                }
            }
            i = i + 1;
        }
        out
    }
}

/// The positions, in order, of the first `n` gids whose rows `user_id`
/// owned when their turn came.
pub open spec fn owned_steps(rows: Seq<ItemMetaData>, user_id: i64, gids: Seq<String>, n: nat) -> Seq<int>
    decreases n,
{
    if n == 0 || n > gids.len() {
        Seq::empty()
    } else {
        let rest = owned_steps(rows, user_id, gids, (n - 1) as nat);
        if owns(after_deletes(rows, user_id, gids, (n - 1) as nat), user_id, gids[n - 1]@) {
            rest.push(n - 1)
        } else {
            rest
        }
    }
}

} // verus!
