use vstd::prelude::*;

use crate::model::{GidStatus, ItemMetaData};
use crate::text::{text_eq, opt_text, copy_opt};

verus! {

/// Seconds since the Unix epoch at which a row was created (rows of the
/// table always have one).
pub open spec fn created(r: ItemMetaData) -> i64 {
    match r.created_at {
        Some(t) => t,
        None => 0,
    }
}

/// Position of the row of `gid`, or the number of rows.
pub open spec fn gid_pos(rows: Seq<ItemMetaData>, gid: Seq<char>) -> nat
    decreases rows.len(),
{
    if rows.len() == 0 {
        0
    } else if rows[0].gid@ == gid {
        0
    } else {
        1 + gid_pos(rows.drop_first(), gid)
    }
}

pub open spec fn has_gid(rows: Seq<ItemMetaData>, gid: Seq<char>) -> bool {
    gid_pos(rows, gid) < rows.len()
}

/// Where a row created at `t` goes: after every row created no later.
pub open spec fn insert_pos(rows: Seq<ItemMetaData>, t: i64) -> nat
    decreases rows.len(),
{
    if rows.len() == 0 {
        0
    } else if created(rows.last()) <= t {
        rows.len()
    } else {
        insert_pos(rows.drop_last(), t)
    }
}

/// Well-formed table: one row per gid, each with a creation time, ordered
/// by creation time.
pub open spec fn table_wf(rows: Seq<ItemMetaData>) -> bool {
    &&& forall|i: int, j: int| 0 <= i < j < rows.len() ==> rows[i].gid@ != rows[j].gid@
    &&& forall|i: int| 0 <= i < rows.len() ==> (#[trigger] rows[i]).created_at is Some
    &&& forall|i: int, j: int| 0 <= i < j < rows.len() ==> created(rows[i]) <= created(rows[j])
}

/// The row that a first insert of `meta` for `user_id` at time `now` adds.
pub open spec fn initial_row(meta: ItemMetaData, user_id: i64, now: i64) -> ItemMetaData {
    ItemMetaData {
        user_id,
        created_at: Some(now),
        completed_at: None,
        updated_at: None,
        ..meta
    }
}

/// The table `rows` after a first record of `meta` for `user_id` at `now`:
/// unchanged where the gid is already recorded.
pub open spec fn inserted(rows: Seq<ItemMetaData>, meta: ItemMetaData, user_id: i64, now: i64) -> Seq<ItemMetaData> {
    if has_gid(rows, meta.gid@) {
        rows
    } else {
        rows.insert(insert_pos(rows, now) as int, initial_row(meta, user_id, now))
    }
}

/// The row `old` after the daemon reported `meta` at time `now`.
pub open spec fn upserted(old: ItemMetaData, meta: ItemMetaData, now: i64) -> ItemMetaData {
    ItemMetaData {
        name: if opt_text(meta.name) == Some("<Untitled>"@) || meta.name is None {
            old.name
        } else {
            meta.name
        },
        status: meta.status,
        dir: meta.dir,
        files: meta.files,
        total_length: meta.total_length,
        completed_length: meta.completed_length,
        uploaded_length: meta.uploaded_length,
        info_hash: meta.info_hash,
        is_torrent: meta.is_torrent,
        error_code: meta.error_code,
        error_message: meta.error_message,
        completed_at: if meta.status == GidStatus::Complete {
            if old.completed_at is Some { old.completed_at } else { Some(now) }
        } else {
            None
        },
        updated_at: Some(now),
        ..old
    }
}

/// The row `old` with fresh progress.
pub open spec fn progressed(
    old: ItemMetaData,
    files: Option<String>,
    completed: String,
    total: String,
    uploaded: String,
) -> ItemMetaData {
    ItemMetaData {
        files,
        completed_length: Some(completed),
        total_length: Some(total),
        uploaded_length: Some(uploaded),
        ..old
    }
}

/// The row `old` of a download the daemon no longer knows.
pub open spec fn session_lost(old: ItemMetaData, message: String) -> ItemMetaData {
    ItemMetaData {
        status: GidStatus::Error,
        error_code: Some(1),
        error_message: Some(message),
        ..old
    }
}

/// `new` is `old` with the row of `gid`, if there is one, marked failed
/// because the daemon lost it.
pub open spec fn marked_lost(old: Seq<ItemMetaData>, new: Seq<ItemMetaData>, gid: Seq<char>) -> bool {
    if has_gid(old, gid) {
        let i = gid_pos(old, gid) as int;
        &&& new.len() == old.len()
        &&& forall|j: int| 0 <= j < old.len() && j != i ==> new[j] == old[j]
        &&& opt_text(new[i].error_message) == Some("Session lost"@)
        &&& new[i] == session_lost(old[i], new[i].error_message->0)
    } else {
        new == old
    }
}

/// Whether `user_id` owns the row of `gid`.
pub open spec fn owns(rows: Seq<ItemMetaData>, user_id: i64, gid: Seq<char>) -> bool {
    has_gid(rows, gid) && rows[gid_pos(rows, gid) as int].user_id == user_id
}

/// The table after `user_id` deleted the row of `gid`: the row goes where
/// that user owns it, and nothing changes otherwise.
pub open spec fn after_delete(rows: Seq<ItemMetaData>, user_id: i64, gid: Seq<char>) -> Seq<ItemMetaData> {
    if owns(rows, user_id, gid) { rows.remove(gid_pos(rows, gid) as int) } else { rows }
}

/// The rows of `user_id`, newest first.
pub open spec fn user_rows_desc(rows: Seq<ItemMetaData>, user_id: i64) -> Seq<ItemMetaData>
    decreases rows.len(),
{
    if rows.len() == 0 {
        Seq::empty()
    } else {
        let rest = user_rows_desc(rows.drop_first(), user_id);
        if rows[0].user_id == user_id { rest.push(rows[0]) } else { rest }
    }
}

/// The page of `items` that skips `offset` of them and holds at most `limit`.
pub open spec fn page_of<A>(items: Seq<A>, offset: int, limit: int) -> Seq<A> {
    if offset >= items.len() {
        Seq::empty()
    } else if offset + limit >= items.len() {
        items.subrange(offset, items.len() as int)
    } else {
        items.subrange(offset, offset + limit)
    }
}

/// The gid and owner of each active row, in table order.
pub open spec fn active_of(rows: Seq<ItemMetaData>) -> Seq<(Seq<char>, i64)>
    decreases rows.len(),
{
    if rows.len() == 0 {
        Seq::empty()
    } else {
        let rest = active_of(rows.drop_last());
        if rows.last().status == GidStatus::Active {
            rest.push((rows.last().gid@, rows.last().user_id))
        } else {
            rest
        }
    }
}

/// The gid of each row whose state the daemon may still change, in table
/// order.
pub open spec fn reconcilable_of(rows: Seq<ItemMetaData>) -> Seq<Seq<char>>
    decreases rows.len(),
{
    if rows.len() == 0 {
        Seq::empty()
    } else {
        let rest = reconcilable_of(rows.drop_last());
        if rows.last().status != GidStatus::Removed {
            rest.push(rows.last().gid@)
        } else {
            rest
        }
    }
}

/// Number of pages of `limit` items that `total` items fill.
pub open spec fn pages_for(total: nat, limit: nat) -> nat
    recommends
        limit > 0,
{
    ((total + limit - 1) as nat / limit) as nat
}

/// The rows of a user, taken from a table ordered by creation time, come
/// newest first, and each is no older than the table's first row.
pub proof fn lemma_user_rows_desc(rows: Seq<ItemMetaData>, user_id: i64)
    requires
        forall|i: int, j: int| 0 <= i < j < rows.len() ==> created(rows[i]) <= created(rows[j]),
    ensures
        forall|k: int| 0 <= k < user_rows_desc(rows, user_id).len()
            ==> (#[trigger] user_rows_desc(rows, user_id)[k]).user_id == user_id
            && created(rows[0]) <= created(user_rows_desc(rows, user_id)[k]),
        forall|a: int, b: int| 0 <= a < b < user_rows_desc(rows, user_id).len()
            ==> created(user_rows_desc(rows, user_id)[a]) >= created(user_rows_desc(rows, user_id)[b]),
    decreases rows.len(),
{
    if rows.len() > 0 {
        let rest = rows.drop_first();
        assert forall|i: int, j: int| 0 <= i < j < rest.len() implies created(rest[i]) <= created(rest[j]) by {
            assert(rest[i] == rows[i + 1] && rest[j] == rows[j + 1]);
        }
        lemma_user_rows_desc(rest, user_id);
        if rest.len() > 0 {
            assert(created(rows[0]) <= created(rows[1]));
            assert(rest[0] == rows[1]);
        }
    }
}

pub proof fn lemma_gid_pos(rows: Seq<ItemMetaData>, gid: Seq<char>, i: int)
    requires
        0 <= i <= rows.len(),
        forall|j: int| 0 <= j < i ==> rows[j].gid@ != gid,
        i < rows.len() ==> rows[i].gid@ == gid,
    ensures
        gid_pos(rows, gid) == i,
    decreases rows.len(),
{
    if rows.len() > 0 && rows[0].gid@ != gid {
        let rest = rows.drop_first();
        assert forall|j: int| 0 <= j < i - 1 implies rest[j].gid@ != gid by {
            assert(rest[j] == rows[j + 1]);
        }
        lemma_gid_pos(rest, gid, i - 1);
    }
}

pub proof fn lemma_gid_pos_props(rows: Seq<ItemMetaData>, gid: Seq<char>)
    ensures
        gid_pos(rows, gid) <= rows.len(),
        forall|j: int| 0 <= j < gid_pos(rows, gid) ==> (#[trigger] rows[j]).gid@ != gid,
        gid_pos(rows, gid) < rows.len() ==> rows[gid_pos(rows, gid) as int].gid@ == gid,
    decreases rows.len(),
{
    if rows.len() > 0 && rows[0].gid@ != gid {
        let rest = rows.drop_first();
        lemma_gid_pos_props(rest, gid);
        assert forall|j: int| 0 <= j < gid_pos(rows, gid) implies (#[trigger] rows[j]).gid@ != gid by {
            if j > 0 {
                assert(rows[j] == rest[j - 1]);
            }
        }
    }
}

pub proof fn lemma_insert_pos(rows: Seq<ItemMetaData>, t: i64)
    requires
        table_wf(rows),
    ensures
        insert_pos(rows, t) <= rows.len(),
        forall|j: int| 0 <= j < insert_pos(rows, t) ==> created(#[trigger] rows[j]) <= t,
        forall|j: int| insert_pos(rows, t) <= j < rows.len() ==> created(#[trigger] rows[j]) > t,
    decreases rows.len(),
{
    if rows.len() > 0 && created(rows.last()) > t {
        let rest = rows.drop_last();
        assert(table_wf(rest)) by {
            assert forall|i: int| 0 <= i < rest.len() implies (#[trigger] rest[i]).created_at is Some by {
                assert(rest[i] == rows[i]);
            }
        }
        lemma_insert_pos(rest, t);
        assert forall|j: int| 0 <= j < insert_pos(rows, t) implies created(#[trigger] rows[j]) <= t by {
            assert(rows[j] == rest[j]);
        }
        assert forall|j: int| insert_pos(rows, t) <= j < rows.len() implies created(#[trigger] rows[j]) > t by {
            if j < rows.len() - 1 {
                assert(rows[j] == rest[j]);
            }
        }
    } else if rows.len() > 0 {
        assert forall|j: int| 0 <= j < rows.len() implies created(#[trigger] rows[j]) <= t by {
            if j < rows.len() - 1 {
                assert(created(rows[j]) <= created(rows[rows.len() - 1]));
            }
        }
    }
}

impl ItemMetaData {
    /// A copy of this row.
    pub fn copy(&self) -> (r: ItemMetaData)
        ensures
            r == *self,
    {
        ItemMetaData {
            gid: self.gid.clone(),
            name: copy_opt(&self.name),
            status: self.status,
            dir: copy_opt(&self.dir),
            files: copy_opt(&self.files),
            total_length: copy_opt(&self.total_length),
            completed_length: copy_opt(&self.completed_length),
            uploaded_length: copy_opt(&self.uploaded_length),
            source_uri: copy_opt(&self.source_uri),
            info_hash: copy_opt(&self.info_hash),
            error_code: self.error_code,
            error_message: copy_opt(&self.error_message),
            is_torrent: self.is_torrent,
            created_at: self.created_at,
            completed_at: self.completed_at,
            updated_at: self.updated_at,
            user_id: self.user_id,
        }
    }
}

/// The download history: one row per gid, owned by one user.
pub struct HistoryStore {
    rows: Vec<ItemMetaData>,
}

impl View for HistoryStore {
    type V = Seq<ItemMetaData>;

    closed spec fn view(&self) -> Seq<ItemMetaData> {
        self.rows@
    }
}

impl HistoryStore {
    #[verifier::type_invariant]
    spec fn well_formed(&self) -> bool {
        table_wf(self.rows@)
    }

    pub fn new() -> (r: HistoryStore)
        ensures
            r@.len() == 0,
            table_wf(r@),
    {
        HistoryStore { rows: Vec::new() }
    }

    /// Number of rows.
    pub fn len(&self) -> (r: usize)
        ensures
            r == self@.len(),
    {
        self.rows.len()
    }

    /// The row of `gid`.
    pub fn get(&self, gid: &str) -> (r: Option<&ItemMetaData>)
        ensures
            has_gid(self@, gid@) ==> r == Some(&self@[gid_pos(self@, gid@) as int]),
            !has_gid(self@, gid@) ==> r is None,
    {
        let i = find_in(&self.rows, gid);
        if i < self.rows.len() {
            Some(&self.rows[i])
        } else {
            None
        }
    }

    /// The gid and owner of every active row.
    pub fn select_active_gids(&self) -> (r: Vec<(String, i64)>)
        ensures
            r@.map_values(|p: (String, i64)| (p.0@, p.1)) == active_of(self@),
    {
        let mut out: Vec<(String, i64)> = Vec::new();
        let mut i: usize = 0;
        while i < self.rows.len()
            invariant
                i <= self.rows.len(),
                out@.map_values(|p: (String, i64)| (p.0@, p.1)) == active_of(self@.subrange(0, i as int)),
            decreases self.rows.len() - i,
        {
            assert(self@.subrange(0, i + 1).drop_last() =~= self@.subrange(0, i as int));
            let ghost before = out@;
            if self.rows[i].status == GidStatus::Active {
                out.push((self.rows[i].gid.clone(), self.rows[i].user_id));
                assert(out@.map_values(|p: (String, i64)| (p.0@, p.1)) =~= before.map_values(
                    |p: (String, i64)| (p.0@, p.1),
                ).push((self@[i as int].gid@, self@[i as int].user_id)));
            }
            i = i + 1;
        }
        assert(self@.subrange(0, i as int) =~= self@);
        out
    }

    /// The gid of every row whose state the daemon may still change.
    pub fn select_reconcilable_gids(&self) -> (r: Vec<String>)
        ensures
            r@.map_values(|s: String| s@) == reconcilable_of(self@),
    {
        let mut out: Vec<String> = Vec::new();
        let mut i: usize = 0;
        while i < self.rows.len()
            invariant
                i <= self.rows.len(),
                out@.map_values(|s: String| s@) == reconcilable_of(self@.subrange(0, i as int)),
            decreases self.rows.len() - i,
        {
            assert(self@.subrange(0, i + 1).drop_last() =~= self@.subrange(0, i as int));
            let ghost before = out@;
            if self.rows[i].status != GidStatus::Removed {
                out.push(self.rows[i].gid.clone());
                assert(out@.map_values(|s: String| s@) =~= before.map_values(|s: String| s@).push(
                    self@[i as int].gid@,
                ));
            }
            i = i + 1;
        }
        assert(self@.subrange(0, i as int) =~= self@);
        out
    }

    /// The rows of `user_id`, newest first: the `page`-th page of `limit`
    /// rows, and how many rows the user has in all.
    pub fn list_for_user(&self, user_id: i64, page: u32, limit: u32) -> (r: (Vec<ItemMetaData>, u64))
        requires
            page >= 1,
        ensures
            r.0@ == page_of(
                user_rows_desc(self@, user_id),
                (page as int - 1) * limit as int,
                limit as int,
            ),
            r.1 == user_rows_desc(self@, user_id).len(),
            forall|k: int| 0 <= k < r.0@.len() ==> (#[trigger] r.0@[k]).user_id == user_id,
            forall|a: int, b: int| 0 <= a < b < r.0@.len() ==> created(r.0@[a]) >= created(r.0@[b]),
    {
        proof {
            use_type_invariant(self);
            lemma_user_rows_desc(self@, user_id);
        }
        let n = self.rows.len();
        let mut all: Vec<ItemMetaData> = Vec::new();
        let mut i: usize = n;
        assert(self@.subrange(n as int, n as int) =~= Seq::<ItemMetaData>::empty());
        while i > 0
            invariant
                n == self@.len(),
                i <= n,
                all@ == user_rows_desc(self@.subrange(i as int, n as int), user_id),
            decreases i,
        {
            assert(self@.subrange(i - 1, n as int).drop_first() =~= self@.subrange(i as int, n as int));
            if self.rows[i - 1].user_id == user_id {
                all.push(self.rows[i - 1].copy());
            }
            i = i - 1;
        }
        assert(self@.subrange(0, n as int) =~= self@);
        let total = all.len();
        assert((page as u64 - 1) * (limit as u64) <= 0xffff_fffe_0000_0001u64) by (nonlinear_arith)
            requires
                1 <= page <= u32::MAX,
                limit <= u32::MAX,
        ;
        let offset: u64 = (page as u64 - 1) * limit as u64;
        let mut out: Vec<ItemMetaData> = Vec::new();
        if offset < total as u64 {
            let end: usize = if limit as u64 >= total as u64 - offset { total } else { (offset + limit as u64) as usize };
            let mut k: usize = offset as usize;
            while k < end
                invariant
                    offset <= k <= end <= all@.len(),
                    out@ == all@.subrange(offset as int, k as int),
                decreases end - k,
            {
                out.push(all[k].copy());
                k = k + 1;
                assert(out@ =~= all@.subrange(offset as int, k as int));
            }
        } else {
            assert(out@ =~= Seq::<ItemMetaData>::empty());
        }
        (out, total as u64)
    }


    /// Records a new download of `user_id` created at `now`; a gid already
    /// recorded is left as it is. Returns whether a row was added.
    pub fn insert_initial(&mut self, user_id: i64, meta: &ItemMetaData, now: i64) -> (added: bool)
        ensures
            table_wf(final(self)@),
            added == !has_gid(old(self)@, meta.gid@),
            final(self)@ == inserted(old(self)@, *meta, user_id, now),
    {
        proof { use_type_invariant(&*self); }
        let mut rows: Vec<ItemMetaData> = Vec::new();
        std::mem::swap(&mut rows, &mut self.rows);
        let added = insert_row(&mut rows, user_id, meta, now);
        self.rows = rows;
        added
    }

    /// Writes fresh progress into the row of `gid`, leaving its state
    /// alone. Returns the number of rows changed.
    pub fn update_progress(
        &mut self,
        gid: &str,
        files: Option<String>,
        completed: String,
        total: String,
        uploaded: String,
    ) -> (changed: usize)
        ensures
            table_wf(final(self)@),
            has_gid(old(self)@, gid@) ==> changed == 1 && final(self)@ == old(self)@.update(
                gid_pos(old(self)@, gid@) as int,
                progressed(old(self)@[gid_pos(old(self)@, gid@) as int], files, completed, total, uploaded),
            ),
            !has_gid(old(self)@, gid@) ==> changed == 0 && final(self)@ == old(self)@,
    {
        proof { use_type_invariant(&*self); }
        let mut rows: Vec<ItemMetaData> = Vec::new();
        std::mem::swap(&mut rows, &mut self.rows);
        let changed = progress_row(&mut rows, gid, files, completed, total, uploaded);
        self.rows = rows;
        changed
    }

    /// Writes what the daemon reported into the row of `meta.gid` at time
    /// `now`, and returns the row's owner, creation and completion times;
    /// `None` where no row has that gid.
    pub fn upsert_from_daemon(&mut self, meta: &ItemMetaData, now: i64) -> (r: Option<(i64, Option<i64>, Option<i64>)>)
        ensures
            table_wf(final(self)@),
            !has_gid(old(self)@, meta.gid@) ==> r is None && final(self)@ == old(self)@,
            has_gid(old(self)@, meta.gid@) ==> {
                let i = gid_pos(old(self)@, meta.gid@) as int;
                let row = upserted(old(self)@[i], *meta, now);
                &&& final(self)@ == old(self)@.update(i, row)
                &&& r == Some((row.user_id, row.created_at, row.completed_at))
            },
    {
        proof { use_type_invariant(&*self); }
        let mut rows: Vec<ItemMetaData> = Vec::new();
        std::mem::swap(&mut rows, &mut self.rows);
        let r = upsert_row(&mut rows, meta, now);
        self.rows = rows;
        r
    }

    /// Marks the row of `gid` as failed because the daemon no longer knows
    /// it. Returns the number of rows changed.
    pub fn mark_session_lost(&mut self, gid: &str) -> (changed: usize)
        ensures
            table_wf(final(self)@),
            changed == (if has_gid(old(self)@, gid@) { 1usize } else { 0usize }),
            marked_lost(old(self)@, final(self)@, gid@),
    {
        proof { use_type_invariant(&*self); }
        let mut rows: Vec<ItemMetaData> = Vec::new();
        std::mem::swap(&mut rows, &mut self.rows);
        let changed = lose_row(&mut rows, gid);
        self.rows = rows;
        changed
    }

    /// Deletes the row of `gid` if `user_id` owns it. Returns the number of
    /// rows deleted.
    pub fn delete_for_user(&mut self, user_id: i64, gid: &str) -> (deleted: usize)
        ensures
            table_wf(final(self)@),
            deleted == (if owns(old(self)@, user_id, gid@) { 1usize } else { 0usize }),
            final(self)@ == after_delete(old(self)@, user_id, gid@),
    {
        proof { use_type_invariant(&*self); }
        let mut rows: Vec<ItemMetaData> = Vec::new();
        std::mem::swap(&mut rows, &mut self.rows);
        let deleted = delete_row(&mut rows, user_id, gid);
        self.rows = rows;
        deleted
    }
}

fn find_in(rows: &Vec<ItemMetaData>, gid: &str) -> (r: usize)
    ensures
        r == gid_pos(rows@, gid@),
        r <= rows@.len(),
        forall|j: int| 0 <= j < r ==> rows@[j].gid@ != gid@,
        r < rows@.len() ==> rows@[r as int].gid@ == gid@,
{
    let mut i: usize = 0;
    while i < rows.len()
        invariant
            i <= rows.len(),
            forall|j: int| 0 <= j < i ==> rows@[j].gid@ != gid@,
        decreases rows.len() - i,
    {
        if text_eq(rows[i].gid.as_str(), gid) {
            proof { lemma_gid_pos(rows@, gid@, i as int); }
            return i;
        }
        i = i + 1;
    }
    proof { lemma_gid_pos(rows@, gid@, i as int); }
    i
}

/// Records a new download of `user_id` created at `now`; a gid already
/// recorded is left as it is. Returns whether a row was added.
fn insert_row(rows: &mut Vec<ItemMetaData>, user_id: i64, meta: &ItemMetaData, now: i64) -> (added: bool)
    requires
        table_wf(old(rows)@),
    ensures
        table_wf(final(rows)@),
        added == !has_gid(old(rows)@, meta.gid@),
        final(rows)@ == inserted(old(rows)@, *meta, user_id, now),
        has_gid(old(rows)@, meta.gid@) ==> final(rows)@ == old(rows)@,
        !has_gid(old(rows)@, meta.gid@) ==> final(rows)@ == old(rows)@.insert(
            insert_pos(old(rows)@, now) as int,
            initial_row(*meta, user_id, now),
        ),
{
    let i = find_in(rows, meta.gid.as_str());
    if i < rows.len() {
        return false;
    }
    let row = ItemMetaData {
        user_id,
        created_at: Some(now),
        completed_at: None,
        updated_at: None,
        ..meta.copy()
    };
    let ghost before = rows@;
    proof { lemma_insert_pos(before, now); }
    let mut p: usize = rows.len();
    while p > 0
        invariant
            rows@ == before,
            table_wf(before),
            p <= rows.len(),
            forall|j: int| p <= j < before.len() ==> created(#[trigger] before[j]) > now,
            forall|j: int| 0 <= j < insert_pos(before, now) ==> created(#[trigger] before[j]) <= now,
            insert_pos(before, now) <= p,
        ensures
            p <= rows.len(),
            forall|j: int| p <= j < before.len() ==> created(#[trigger] before[j]) > now,
            insert_pos(before, now) <= p,
            p == 0 || created(before[p - 1]) <= now,
        decreases p,
    {
        assert(before[p - 1].created_at is Some);
        match rows[p - 1].created_at {
            Some(t) => if t <= now {
                break;
            },
            None => {},
        }
        p = p - 1;
    }
    assert(p == insert_pos(before, now)) by {
        if p > insert_pos(before, now) {
            assert(created(before[p - 1]) <= now);
        }
    }
    rows.insert(p, row);
    proof {
        let after = rows@;
        assert(after == before.insert(p as int, initial_row(*meta, user_id, now)));
        assert forall|a: int, b: int| 0 <= a < b < after.len() implies after[a].gid@ != after[b].gid@ by {
            if a == p as int {
                assert(after[b] == before[b - 1]);
            } else if b == p as int {
                assert(after[a] == before[a]);
            } else {
                let a2 = if a < p { a } else { a - 1 };
                let b2 = if b < p { b } else { b - 1 };
                assert(after[a] == before[a2]);
                assert(after[b] == before[b2]);
            }
        }
        assert forall|a: int, b: int| 0 <= a < b < after.len() implies created(after[a]) <= created(after[b]) by {
            let a2 = if a < p { a } else { a - 1 };
            let b2 = if b < p { b } else { b - 1 };
            if a != p as int {
                assert(after[a] == before[a2]);
            }
            if b != p as int {
                assert(after[b] == before[b2]);
            }
        }
        assert forall|a: int| 0 <= a < after.len() implies (#[trigger] after[a]).created_at is Some by {
            if a != p as int {
                let a2 = if a < p { a } else { a - 1 };
                assert(after[a] == before[a2]);
            }
        }
    }
    true
}

/// Writes fresh progress into the row of `gid`, leaving its state
/// alone. Returns the number of rows changed.
fn progress_row(
    rows: &mut Vec<ItemMetaData>,
    gid: &str,
    files: Option<String>,
    completed: String,
    total: String,
    uploaded: String,
) -> (changed: usize)
    requires
        table_wf(old(rows)@),
    ensures
        table_wf(final(rows)@),
        has_gid(old(rows)@, gid@) ==> changed == 1 && final(rows)@ == old(rows)@.update(
            gid_pos(old(rows)@, gid@) as int,
            progressed(old(rows)@[gid_pos(old(rows)@, gid@) as int], files, completed, total, uploaded),
        ),
        !has_gid(old(rows)@, gid@) ==> changed == 0 && final(rows)@ == old(rows)@,
{
    let i = find_in(rows, gid);
    if i == rows.len() {
        return 0;
    }
    let row = ItemMetaData {
        files,
        completed_length: Some(completed),
        total_length: Some(total),
        uploaded_length: Some(uploaded),
        ..rows[i].copy()
    };
    let ghost before = rows@;
    rows.set(i, row);
    proof { lemma_update_keeps_wf(before, i as int, row); }
    1
}

/// Writes what the daemon reported into the row of `meta.gid` at time
/// `now`, and returns the row's owner, creation and completion times;
/// `None` where no row has that gid.
fn upsert_row(rows: &mut Vec<ItemMetaData>, meta: &ItemMetaData, now: i64) -> (r: Option<(i64, Option<i64>, Option<i64>)>)
    requires
        table_wf(old(rows)@),
    ensures
        table_wf(final(rows)@),
        !has_gid(old(rows)@, meta.gid@) ==> r is None && final(rows)@ == old(rows)@,
        has_gid(old(rows)@, meta.gid@) ==> {
            let i = gid_pos(old(rows)@, meta.gid@) as int;
            let row = upserted(old(rows)@[i], *meta, now);
            &&& final(rows)@ == old(rows)@.update(i, row)
            &&& r == Some((row.user_id, row.created_at, row.completed_at))
        },
{
    let i = find_in(rows, meta.gid.as_str());
    if i == rows.len() {
        return None;
    }
    let old_row = rows[i].copy();
    let keep_name = match &meta.name {
        Some(n) => text_eq(n.as_str(), "<Untitled>"),
        None => true,
    };
    let completed_at = if meta.status == GidStatus::Complete {
        if old_row.completed_at.is_some() { old_row.completed_at } else { Some(now) }
    } else {
        None
    };
    let row = ItemMetaData {
        name: if keep_name { copy_opt(&old_row.name) } else { copy_opt(&meta.name) },
        status: meta.status,
        dir: copy_opt(&meta.dir),
        files: copy_opt(&meta.files),
        total_length: copy_opt(&meta.total_length),
        completed_length: copy_opt(&meta.completed_length),
        uploaded_length: copy_opt(&meta.uploaded_length),
        info_hash: copy_opt(&meta.info_hash),
        is_torrent: meta.is_torrent,
        error_code: meta.error_code,
        error_message: copy_opt(&meta.error_message),
        completed_at,
        updated_at: Some(now),
        ..old_row
    };
    let result = (row.user_id, row.created_at, row.completed_at);
    let ghost before = rows@;
    rows.set(i, row);
    proof { lemma_update_keeps_wf(before, i as int, row); }
    Some(result)
}

/// Marks the row of `gid` as failed because the daemon no longer knows
/// it. Returns the number of rows changed.
fn lose_row(rows: &mut Vec<ItemMetaData>, gid: &str) -> (changed: usize)
    requires
        table_wf(old(rows)@),
    ensures
        table_wf(final(rows)@),
        changed == (if has_gid(old(rows)@, gid@) { 1usize } else { 0usize }),
        marked_lost(old(rows)@, final(rows)@, gid@),
{
    let i = find_in(rows, gid);
    if i == rows.len() {
        return 0;
    }
    let row = ItemMetaData {
        status: GidStatus::Error,
        error_code: Some(1),
        error_message: Some(String::from_str("Session lost")),
        ..rows[i].copy()
    };
    let ghost before = rows@;
    rows.set(i, row);
    proof { lemma_update_keeps_wf(before, i as int, row); }
    1
}

/// Deletes the row of `gid` if `user_id` owns it. Returns the number of
/// rows deleted.
fn delete_row(rows: &mut Vec<ItemMetaData>, user_id: i64, gid: &str) -> (deleted: usize)
    requires
        table_wf(old(rows)@),
    ensures
        table_wf(final(rows)@),
        has_gid(old(rows)@, gid@) && old(rows)@[gid_pos(old(rows)@, gid@) as int].user_id == user_id
            ==> deleted == 1 && final(rows)@ == old(rows)@.remove(gid_pos(old(rows)@, gid@) as int),
        !(has_gid(old(rows)@, gid@) && old(rows)@[gid_pos(old(rows)@, gid@) as int].user_id == user_id)
            ==> deleted == 0 && final(rows)@ == old(rows)@,
{
    let i = find_in(rows, gid);
    if i == rows.len() || rows[i].user_id != user_id {
        return 0;
    }
    let ghost before = rows@;
    rows.remove(i);
    proof {
        let after = rows@;
        assert(after == before.remove(i as int));
        assert forall|a: int, b: int| 0 <= a < b < after.len() implies after[a].gid@ != after[b].gid@
            && created(after[a]) <= created(after[b]) by {
            let a2 = if a < i { a } else { a + 1 };
            let b2 = if b < i { b } else { b + 1 };
            assert(after[a] == before[a2]);
            assert(after[b] == before[b2]);
        }
        assert forall|a: int| 0 <= a < after.len() implies (#[trigger] after[a]).created_at is Some by {
            let a2 = if a < i { a } else { a + 1 };
            assert(after[a] == before[a2]);
        }
    }
    1
}

/// Number of pages of `limit` rows that `total` rows fill.
pub fn total_pages(total: u64, limit: u32) -> (r: u64)
    requires
        limit >= 1,
    ensures
        r == pages_for(total as nat, limit as nat),
{
    let p: u128 = (total as u128 + limit as u128 - 1) / limit as u128;
    assert(p <= total as u128) by (nonlinear_arith)
        requires
            limit >= 1,
            p as int == (total as int + limit as int - 1) / (limit as int),
    ;
    p as u64
}

proof fn lemma_update_keeps_wf(rows: Seq<ItemMetaData>, i: int, row: ItemMetaData)
    requires
        table_wf(rows),
        0 <= i < rows.len(),
        row.gid@ == rows[i].gid@,
        row.created_at == rows[i].created_at,
    ensures
        table_wf(rows.update(i, row)),
{
    let after = rows.update(i, row);
    assert forall|a: int, b: int| 0 <= a < b < after.len() implies after[a].gid@ != after[b].gid@
        && created(after[a]) <= created(after[b]) by {
        assert(after[a].gid@ == rows[a].gid@ && created(after[a]) == created(rows[a]));
        assert(after[b].gid@ == rows[b].gid@ && created(after[b]) == created(rows[b]));
    }
    assert forall|a: int| 0 <= a < after.len() implies (#[trigger] after[a]).created_at is Some by {
        assert(after[a].created_at == rows[a].created_at);
    }
}

pub proof fn lemma_no_gid(rows: Seq<ItemMetaData>, gid: Seq<char>)
    requires
        !has_gid(rows, gid),
    ensures
        forall|j: int| 0 <= j < rows.len() ==> (#[trigger] rows[j]).gid@ != gid,
    decreases rows.len(),
{
    if rows.len() > 0 {
        let rest = rows.drop_first();
        lemma_no_gid(rest, gid);
        assert forall|j: int| 0 <= j < rows.len() implies (#[trigger] rows[j]).gid@ != gid by {
            if j > 0 {
                assert(rows[j] == rest[j - 1]);
            }
        }
    }
}

/// A report that names a download `<Untitled>` leaves the name the row
/// already had.
pub proof fn law_untitled_keeps_name(old: ItemMetaData, meta: ItemMetaData, now: i64)
    requires
        opt_text(meta.name) == Some("<Untitled>"@),
    ensures
        upserted(old, meta, now).name == old.name,
{
}

/// Recording a new download adds exactly one row for its gid, created at
/// that time; recording it again then finds that row and changes nothing.
pub proof fn law_insert_initial_once(rows: Seq<ItemMetaData>, meta: ItemMetaData, user_id: i64, now: i64)
    requires
        table_wf(rows),
        !has_gid(rows, meta.gid@),
    ensures
        ({
            let once = rows.insert(insert_pos(rows, now) as int, initial_row(meta, user_id, now));
            &&& has_gid(once, meta.gid@)
            &&& once[gid_pos(once, meta.gid@) as int].created_at == Some(now)
            &&& forall|j: int| 0 <= j < once.len() && (#[trigger] once[j]).gid@ == meta.gid@
                ==> j == gid_pos(once, meta.gid@)
        }),
{
    lemma_insert_pos(rows, now);
    lemma_no_gid(rows, meta.gid@);
    let p = insert_pos(rows, now) as int;
    let once = rows.insert(p, initial_row(meta, user_id, now));
    assert forall|j: int| 0 <= j < p implies once[j].gid@ != meta.gid@ by {
        assert(once[j] == rows[j]);
    }
    assert(once[p] == initial_row(meta, user_id, now));
    lemma_gid_pos(once, meta.gid@, p);
    assert forall|j: int| 0 <= j < once.len() && (#[trigger] once[j]).gid@ == meta.gid@ implies j == p by {
        if j < p {
            assert(once[j] == rows[j]);
        } else if j > p {
            assert(once[j] == rows[j - 1]);
        }
    }
}

/// A user cannot delete the row of a download that another user owns:
/// nothing is deleted and the table stays as it was.
pub proof fn law_delete_isolation(rows: Seq<ItemMetaData>, user_id: i64, gid: Seq<char>)
    requires
        has_gid(rows, gid),
        rows[gid_pos(rows, gid) as int].user_id != user_id,
    ensures
        !owns(rows, user_id, gid),
        after_delete(rows, user_id, gid) == rows,
{
}

} // verus!
