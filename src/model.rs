use vstd::prelude::*;

use crate::text::opt_text;
use crate::json::{
    Json, JValue, values_view, string_member, opt_string_member, opt_member, get_string,
    get_opt_string,
};

verus! {

/// The state of a download as the history keeps it.
#[derive(PartialEq, Eq, Structural, Clone, Copy, Debug)]
pub enum GidStatus {
    Error,
    Paused,
    Active,
    Waiting,
    Removed,
    Stopped,
    Complete,
}

impl GidStatus {
    /// The lowercase name stored and sent for this state.
    pub fn as_str(&self) -> (r: &'static str)
        ensures
            r@ == status_name(*self),
    {
        match self {
            GidStatus::Error => "error",
            GidStatus::Paused => "paused",
            GidStatus::Active => "active",
            GidStatus::Waiting => "waiting",
            GidStatus::Removed => "removed",
            GidStatus::Stopped => "stopped",
            GidStatus::Complete => "complete",
        }
    }
}

pub open spec fn status_name(s: GidStatus) -> Seq<char> {
    match s {
        GidStatus::Error => "error"@,
        GidStatus::Paused => "paused"@,
        GidStatus::Active => "active"@,
        GidStatus::Waiting => "waiting"@,
        GidStatus::Removed => "removed"@,
        GidStatus::Stopped => "stopped"@,
        GidStatus::Complete => "complete"@,
    }
}

pub struct BitTorrentInfo {
    pub name: Option<String>,
}

#[derive(PartialEq, Eq, Structural, Clone, Copy, Debug)]
pub enum BitTorrentMode {
    Single,
    Multi,
}

pub struct Aria2Uri {
    pub uri: String,
    pub status: String,
}

pub struct Aria2File {
    pub index: String,
    pub path: String,
    pub length: String,
    pub completed_length: String,
    pub selected: String,
    pub uris: Vec<Aria2Uri>,
}

pub struct BitTorrent {
    pub announce_list: Option<Vec<Vec<String>>>,
    pub comment: Option<String>,
    pub creation_date: Option<i64>,
    pub mode: Option<BitTorrentMode>,
    pub info: Option<BitTorrentInfo>,
}

/// Counters of the daemon as a whole, as the strings it sends.
pub struct GlobalStat {
    pub download_speed: String,
    pub upload_speed: String,
    pub num_active: String,
    pub num_waiting: String,
    pub num_stopped: String,
    pub num_stopped_total: String,
}

/// The status of one download as the daemon reports it.
pub struct Aria2Res {
    pub gid: String,
    pub status: String,
    pub dir: String,
    pub download_speed: String,
    pub upload_speed: String,
    pub total_length: String,
    pub completed_length: String,
    pub upload_length: String,
    pub error_code: Option<String>,
    pub error_message: Option<String>,
    pub info_hash: Option<String>,
    pub bittorrent: Option<BitTorrent>,
    pub files: Vec<Aria2File>,
    pub connection: Option<String>,
    pub num_pieces: Option<String>,
    pub num_seeders: Option<String>,
    pub seeder: Option<String>,
}

/// One row of the download history.
pub struct ItemMetaData {
    pub gid: String,
    pub name: Option<String>,
    pub status: GidStatus,
    pub dir: Option<String>,
    /// The JSON text of the list of file paths.
    pub files: Option<String>,
    pub total_length: Option<String>,
    pub completed_length: Option<String>,
    pub uploaded_length: Option<String>,
    pub source_uri: Option<String>,
    pub info_hash: Option<String>,
    pub error_code: Option<i64>,
    pub error_message: Option<String>,
    pub is_torrent: Option<bool>,
    /// Seconds since the Unix epoch.
    pub created_at: Option<i64>,
    pub completed_at: Option<i64>,
    pub updated_at: Option<i64>,
    pub user_id: i64,
}

/// A message of a user's live stream. `user_id` picks the stream and is
/// not sent.
pub enum DdlWsMessage {
    Tick { user_id: i64, global: GlobalStat, tasks: Vec<Aria2Res> },
    Event { user_id: i64, data: ItemMetaData },
}

impl DdlWsMessage {
    /// The user whose live stream the message goes to.
    pub open spec fn owner(self) -> i64 {
        match self {
            DdlWsMessage::Tick { user_id, .. } => user_id,
            DdlWsMessage::Event { user_id, .. } => user_id,
        }
    }

    /// Whether the message goes to the live stream of `user_id`.
    pub fn is_for(&self, user_id: i64) -> (r: bool)
        ensures
            r == (self.owner() == user_id),
    {
        match self {
            DdlWsMessage::Tick { user_id: u, .. } => *u == user_id,
            DdlWsMessage::Event { user_id: u, .. } => *u == user_id,
        }
    }
}

pub open spec fn has_string(j: JValue, k: Seq<char>) -> bool {
    string_member(j, k) is Some
}

pub open spec fn has_opt_string(j: JValue, k: Seq<char>) -> bool {
    opt_string_member(j, k) is Some
}

// ---- uris ----

pub open spec fn is_uri(j: JValue) -> bool {
    has_string(j, "uri"@) && has_string(j, "status"@)
}

pub open spec fn decodes_uri(j: JValue, u: Aria2Uri) -> bool {
    &&& u.uri@ == string_member(j, "uri"@)->0
    &&& u.status@ == string_member(j, "status"@)->0
}

impl Aria2Uri {
    pub fn from_json(j: &Json) -> (r: Option<Aria2Uri>)
        ensures
            r is Some <==> is_uri(j@),
            r matches Some(u) ==> decodes_uri(j@, u),
    {
        let uri = match get_string(j, "uri") {
            Some(s) => s,
            None => return None,
        };
        let status = match get_string(j, "status") {
            Some(s) => s,
            None => return None,
        };
        Some(Aria2Uri { uri, status })
    }
}

// ---- files ----

pub open spec fn uris_of(j: JValue) -> Seq<JValue> {
    match j.member("uris"@) {
        Some(JValue::Arr(a)) => a,
        _ => Seq::empty(),
    }
}

pub open spec fn is_file(j: JValue) -> bool {
    &&& has_string(j, "index"@)
    &&& has_string(j, "path"@)
    &&& has_string(j, "length"@)
    &&& has_string(j, "completedLength"@)
    &&& has_string(j, "selected"@)
    &&& j.member("uris"@) matches Some(JValue::Arr(a))
    &&& forall|i: int| 0 <= i < a.len() ==> is_uri(#[trigger] a[i])
}

pub open spec fn decodes_file(j: JValue, f: Aria2File) -> bool {
    &&& f.index@ == string_member(j, "index"@)->0
    &&& f.path@ == string_member(j, "path"@)->0
    &&& f.length@ == string_member(j, "length"@)->0
    &&& f.completed_length@ == string_member(j, "completedLength"@)->0
    &&& f.selected@ == string_member(j, "selected"@)->0
    &&& f.uris@.len() == uris_of(j).len()
    &&& forall|i: int| 0 <= i < f.uris@.len() ==> decodes_uri(uris_of(j)[i], #[trigger] f.uris@[i])
}

impl Aria2File {
    pub fn from_json(j: &Json) -> (r: Option<Aria2File>)
        ensures
            r is Some <==> is_file(j@),
            r matches Some(f) ==> decodes_file(j@, f),
    {
        let index = match get_string(j, "index") { Some(s) => s, None => return None };
        let path = match get_string(j, "path") { Some(s) => s, None => return None };
        let length = match get_string(j, "length") { Some(s) => s, None => return None };
        let completed_length = match get_string(j, "completedLength") { Some(s) => s, None => return None };
        let selected = match get_string(j, "selected") { Some(s) => s, None => return None };
        let items = match j.get("uris") {
            Some(a) => match a.as_array() { Some(items) => items, None => return None },
            None => return None,
        };
        let ghost a = values_view(items@);
        let mut uris: Vec<Aria2Uri> = Vec::new();
        let mut i: usize = 0;
        while i < items.len()
            invariant
                a == values_view(items@),
                a == uris_of(j@),
                i <= items.len(),
                uris@.len() == i,
                forall|k: int| 0 <= k < i ==> is_uri(#[trigger] a[k]),
                forall|k: int| 0 <= k < i ==> decodes_uri(a[k], #[trigger] uris@[k]),
            decreases items.len() - i,
        {
            assert(a[i as int] == items@[i as int]@);
            match Aria2Uri::from_json(&items[i]) {
                Some(u) => uris.push(u),
                None => return None,
            }
            i = i + 1;
        }
        Some(Aria2File { index, path, length, completed_length, selected, uris })
    }
}

// ---- torrents ----

pub open spec fn is_strings(j: JValue) -> bool {
    j matches JValue::Arr(b) && forall|k: int| 0 <= k < b.len() ==> #[trigger] b[k] is Str
}

pub open spec fn decodes_strings(j: JValue, l: Vec<String>) -> bool {
    &&& j matches JValue::Arr(b)
    &&& l@.len() == b.len()
    &&& forall|k: int| 0 <= k < b.len() ==> #[trigger] b[k] == JValue::Str(l@[k]@)
}

pub open spec fn announce_ok(v: Option<JValue>) -> bool {
    v is None || (v->0 is Arr && all_strings_lists(v->0->Arr_0))
}

pub open spec fn all_strings_lists(a: Seq<JValue>) -> bool {
    forall|i: int| 0 <= i < a.len() ==> is_strings(#[trigger] a[i])
}

pub open spec fn decodes_announce(v: Option<JValue>, r: Option<Vec<Vec<String>>>) -> bool {
    match v {
        Some(JValue::Arr(a)) => r matches Some(l) && l@.len() == a.len()
            && forall|i: int| 0 <= i < a.len() ==> decodes_strings(a[i], #[trigger] l@[i]),
        _ => r is None,
    }
}

pub open spec fn date_ok(v: Option<JValue>) -> bool {
    v is None || v matches Some(JValue::Int(_))
}

pub open spec fn mode_of(v: Option<JValue>) -> Option<Option<BitTorrentMode>> {
    match v {
        None => Some(None),
        Some(JValue::Str(s)) => if s == "single"@ {
            Some(Some(BitTorrentMode::Single))
        } else if s == "multi"@ {
            Some(Some(BitTorrentMode::Multi))
        } else {
            None
        },
        _ => None,
    }
}

pub open spec fn info_ok(v: Option<JValue>) -> bool {
    match v {
        None => true,
        Some(j) => j is Obj && has_opt_string(j, "name"@),
    }
}

pub open spec fn is_bittorrent(j: JValue) -> bool {
    &&& j is Obj
    &&& announce_ok(opt_member(j, "announceList"@))
    &&& has_opt_string(j, "comment"@)
    &&& date_ok(opt_member(j, "creationDate"@))
    &&& mode_of(opt_member(j, "mode"@)) is Some
    &&& info_ok(opt_member(j, "info"@))
}

pub open spec fn decodes_bittorrent(j: JValue, b: BitTorrent) -> bool {
    &&& decodes_announce(opt_member(j, "announceList"@), b.announce_list)
    &&& opt_text(b.comment) == opt_string_member(j, "comment"@)->0
    &&& b.creation_date == match opt_member(j, "creationDate"@) {
        Some(JValue::Int(n)) => Some(n as i64),
        _ => None,
    }
    &&& b.mode == mode_of(opt_member(j, "mode"@))->0
    &&& match opt_member(j, "info"@) {
        Some(i) => b.info matches Some(info) && opt_text(info.name) == opt_string_member(i, "name"@)->0,
        None => b.info is None,
    }
}

fn strings_from_json(j: &Json) -> (r: Option<Vec<String>>)
    ensures
        r is Some <==> is_strings(j@),
        r matches Some(l) ==> decodes_strings(j@, l),
{
    let items = match j.as_array() {
        Some(items) => items,
        None => return None,
    };
    let ghost b = values_view(items@);
    let mut out: Vec<String> = Vec::new();
    let mut i: usize = 0;
    while i < items.len()
        invariant
            b == values_view(items@),
            j@ == JValue::Arr(b),
            i <= items.len(),
            out@.len() == i,
            forall|k: int| 0 <= k < i ==> #[trigger] b[k] == JValue::Str(out@[k]@),
        decreases items.len() - i,
    {
        assert(b[i as int] == items@[i as int]@);
        match items[i].as_str() {
            Some(s) => out.push(s.clone()),
            None => return None,
        }
        i = i + 1;
    }
    Some(out)
}

fn announce_from_json(v: Option<&Json>) -> (r: Option<Option<Vec<Vec<String>>>>)
    ensures
        r is Some <==> announce_ok(opt_value_of(v)),
        r matches Some(a) ==> decodes_announce(opt_value_of(v), a),
{
    let j = match v {
        None => return Some(None),
        Some(j) => j,
    };
    let items = match j.as_array() {
        Some(items) => items,
        None => return None,
    };
    let ghost a = values_view(items@);
    let mut out: Vec<Vec<String>> = Vec::new();
    let mut i: usize = 0;
    while i < items.len()
        invariant
            a == values_view(items@),
            j@ == JValue::Arr(a),
            opt_value_of(v) == Some(j@),
            i <= items.len(),
            out@.len() == i,
            forall|k: int| 0 <= k < i ==> is_strings(#[trigger] a[k]),
            forall|k: int| 0 <= k < i ==> decodes_strings(a[k], #[trigger] out@[k]),
        decreases items.len() - i,
    {
        assert(a[i as int] == items@[i as int]@);
        match strings_from_json(&items[i]) {
            Some(l) => out.push(l),
            None => {
                assert(!is_strings(a[i as int]));
                return None;
            },
        }
        i = i + 1;
    }
    Some(Some(out))
}

pub open spec fn opt_value_of(v: Option<&Json>) -> Option<JValue> {
    match v {
        Some(j) => Some(j@),
        None => None,
    }
}

/// The member named `k` unless it is absent or null.
fn member_or_null<'a>(j: &'a Json, k: &str) -> (r: Option<&'a Json>)
    ensures
        opt_value_of(r) == opt_member(j@, k@),
{
    match j.get(k) {
        Some(Json::Null) => None,
        m => m,
    }
}

impl BitTorrent {
    pub fn from_json(j: &Json) -> (r: Option<BitTorrent>)
        ensures
            r is Some <==> is_bittorrent(j@),
            r matches Some(b) ==> decodes_bittorrent(j@, b),
    {
        match j {
            Json::Obj(_) => {},
            _ => return None,
        }
        let announce_list = match announce_from_json(member_or_null(j, "announceList")) {
            Some(a) => a,
            None => return None,
        };
        let comment = match get_opt_string(j, "comment") {
            Some(c) => c,
            None => return None,
        };
        let creation_date = match member_or_null(j, "creationDate") {
            None => None,
            Some(d) => match d.as_i64() {
                Some(n) => Some(n),
                None => return None,
            },
        };
        let mode = match member_or_null(j, "mode") {
            None => None,
            Some(m) => match m.as_str() {
                Some(s) => {
                    if crate::text::text_eq(s.as_str(), "single") {
                        Some(BitTorrentMode::Single)
                    } else if crate::text::text_eq(s.as_str(), "multi") {
                        Some(BitTorrentMode::Multi)
                    } else {
                        return None;
                    }
                },
                None => return None,
            },
        };
        let info = match member_or_null(j, "info") {
            None => None,
            Some(i) => match i {
                Json::Obj(_) => match get_opt_string(i, "name") {
                    Some(name) => Some(BitTorrentInfo { name }),
                    None => return None,
                },
                _ => return None,
            },
        };
        Some(BitTorrent { announce_list, comment, creation_date, mode, info })
    }
}

// ---- daemon status ----

pub open spec fn files_of(j: JValue) -> Seq<JValue> {
    match j.member("files"@) {
        Some(JValue::Arr(a)) => a,
        _ => Seq::empty(),
    }
}

pub open spec fn all_files(a: Seq<JValue>) -> bool {
    forall|i: int| 0 <= i < a.len() ==> is_file(#[trigger] a[i])
}

pub open spec fn bittorrent_ok(v: Option<JValue>) -> bool {
    v is None || is_bittorrent(v->0)
}

/// `j` decodes to the status of a download.
pub open spec fn is_status(j: JValue) -> bool {
    &&& has_string(j, "gid"@)
    &&& has_string(j, "status"@)
    &&& has_string(j, "dir"@)
    &&& has_string(j, "downloadSpeed"@)
    &&& has_string(j, "uploadSpeed"@)
    &&& has_string(j, "totalLength"@)
    &&& has_string(j, "completedLength"@)
    &&& has_string(j, "uploadLength"@)
    &&& has_opt_string(j, "errorCode"@)
    &&& has_opt_string(j, "errorMessage"@)
    &&& has_opt_string(j, "infoHash"@)
    &&& bittorrent_ok(opt_member(j, "bittorrent"@))
    &&& j.member("files"@) matches Some(JValue::Arr(a))
    &&& all_files(a)
    &&& has_opt_string(j, "connection"@)
    &&& has_opt_string(j, "numPieces"@)
    &&& has_opt_string(j, "numSeeders"@)
    &&& has_opt_string(j, "seeder"@)
}

/// `r` is what `j` decodes to.
pub open spec fn decodes_status(j: JValue, r: Aria2Res) -> bool {
    &&& r.gid@ == string_member(j, "gid"@)->0
    &&& r.status@ == string_member(j, "status"@)->0
    &&& r.dir@ == string_member(j, "dir"@)->0
    &&& r.download_speed@ == string_member(j, "downloadSpeed"@)->0
    &&& r.upload_speed@ == string_member(j, "uploadSpeed"@)->0
    &&& r.total_length@ == string_member(j, "totalLength"@)->0
    &&& r.completed_length@ == string_member(j, "completedLength"@)->0
    &&& r.upload_length@ == string_member(j, "uploadLength"@)->0
    &&& opt_text(r.error_code) == opt_string_member(j, "errorCode"@)->0
    &&& opt_text(r.error_message) == opt_string_member(j, "errorMessage"@)->0
    &&& opt_text(r.info_hash) == opt_string_member(j, "infoHash"@)->0
    &&& match opt_member(j, "bittorrent"@) {
        Some(b) => r.bittorrent matches Some(bt) && decodes_bittorrent(b, bt),
        None => r.bittorrent is None,
    }
    &&& r.files@.len() == files_of(j).len()
    &&& forall|i: int| 0 <= i < r.files@.len() ==> decodes_file(files_of(j)[i], #[trigger] r.files@[i])
    &&& opt_text(r.connection) == opt_string_member(j, "connection"@)->0
    &&& opt_text(r.num_pieces) == opt_string_member(j, "numPieces"@)->0
    &&& opt_text(r.num_seeders) == opt_string_member(j, "numSeeders"@)->0
    &&& opt_text(r.seeder) == opt_string_member(j, "seeder"@)->0
}

impl Aria2Res {
    /// Decodes the status object of a download.
    pub fn from_json(j: &Json) -> (r: Option<Aria2Res>)
        ensures
            r is Some <==> is_status(j@),
            r matches Some(res) ==> decodes_status(j@, res),
    {
        let gid = match get_string(j, "gid") { Some(s) => s, None => return None };
        let status = match get_string(j, "status") { Some(s) => s, None => return None };
        let dir = match get_string(j, "dir") { Some(s) => s, None => return None };
        let download_speed = match get_string(j, "downloadSpeed") { Some(s) => s, None => return None };
        let upload_speed = match get_string(j, "uploadSpeed") { Some(s) => s, None => return None };
        let total_length = match get_string(j, "totalLength") { Some(s) => s, None => return None };
        let completed_length = match get_string(j, "completedLength") { Some(s) => s, None => return None };
        let upload_length = match get_string(j, "uploadLength") { Some(s) => s, None => return None };
        let error_code = match get_opt_string(j, "errorCode") { Some(s) => s, None => return None };
        let error_message = match get_opt_string(j, "errorMessage") { Some(s) => s, None => return None };
        let info_hash = match get_opt_string(j, "infoHash") { Some(s) => s, None => return None };
        let bittorrent = match member_or_null(j, "bittorrent") {
            None => None,
            Some(b) => match BitTorrent::from_json(b) {
                Some(bt) => Some(bt),
                None => return None,
            },
        };
        let items = match j.get("files") {
            Some(a) => match a.as_array() { Some(items) => items, None => return None },
            None => return None,
        };
        let ghost a = values_view(items@);
        let mut files: Vec<Aria2File> = Vec::new();
        let mut i: usize = 0;
        while i < items.len()
            invariant
                a == values_view(items@),
                a == files_of(j@),
                i <= items.len(),
                files@.len() == i,
                forall|k: int| 0 <= k < i ==> is_file(#[trigger] a[k]),
                forall|k: int| 0 <= k < i ==> decodes_file(a[k], #[trigger] files@[k]),
            decreases items.len() - i,
        {
            assert(a[i as int] == items@[i as int]@);
            match Aria2File::from_json(&items[i]) {
                Some(f) => files.push(f),
                None => return None,
            }
            i = i + 1;
        }
        let connection = match get_opt_string(j, "connection") { Some(s) => s, None => return None };
        let num_pieces = match get_opt_string(j, "numPieces") { Some(s) => s, None => return None };
        let num_seeders = match get_opt_string(j, "numSeeders") { Some(s) => s, None => return None };
        let seeder = match get_opt_string(j, "seeder") { Some(s) => s, None => return None };
        Some(Aria2Res {
            gid,
            status,
            dir,
            download_speed,
            upload_speed,
            total_length,
            completed_length,
            upload_length,
            error_code,
            error_message,
            info_hash,
            bittorrent,
            files,
            connection,
            num_pieces,
            num_seeders,
            seeder,
        })
    }
}

// ---- global counters ----

pub open spec fn is_global_stat(j: JValue) -> bool {
    &&& has_string(j, "downloadSpeed"@)
    &&& has_string(j, "uploadSpeed"@)
    &&& has_string(j, "numActive"@)
    &&& has_string(j, "numWaiting"@)
    &&& has_string(j, "numStopped"@)
    &&& has_string(j, "numStoppedTotal"@)
}

pub open spec fn decodes_global_stat(j: JValue, g: GlobalStat) -> bool {
    &&& g.download_speed@ == string_member(j, "downloadSpeed"@)->0
    &&& g.upload_speed@ == string_member(j, "uploadSpeed"@)->0
    &&& g.num_active@ == string_member(j, "numActive"@)->0
    &&& g.num_waiting@ == string_member(j, "numWaiting"@)->0
    &&& g.num_stopped@ == string_member(j, "numStopped"@)->0
    &&& g.num_stopped_total@ == string_member(j, "numStoppedTotal"@)->0
}

impl GlobalStat {
    pub fn copy(&self) -> (r: GlobalStat)
        ensures
            r == *self,
    {
        GlobalStat {
            download_speed: self.download_speed.clone(),
            upload_speed: self.upload_speed.clone(),
            num_active: self.num_active.clone(),
            num_waiting: self.num_waiting.clone(),
            num_stopped: self.num_stopped.clone(),
            num_stopped_total: self.num_stopped_total.clone(),
        }
    }

    /// All counters empty.
    pub fn empty() -> (r: GlobalStat)
        ensures
            r.download_speed@.len() == 0,
            r.upload_speed@.len() == 0,
            r.num_active@.len() == 0,
            r.num_waiting@.len() == 0,
            r.num_stopped@.len() == 0,
            r.num_stopped_total@.len() == 0,
    {
        GlobalStat {
            download_speed: String::new(),
            upload_speed: String::new(),
            num_active: String::new(),
            num_waiting: String::new(),
            num_stopped: String::new(),
            num_stopped_total: String::new(),
        }
    }

    pub fn from_json(j: &Json) -> (r: Option<GlobalStat>)
        ensures
            r is Some <==> is_global_stat(j@),
            r matches Some(g) ==> decodes_global_stat(j@, g),
    {
        let download_speed = match get_string(j, "downloadSpeed") { Some(s) => s, None => return None };
        let upload_speed = match get_string(j, "uploadSpeed") { Some(s) => s, None => return None };
        let num_active = match get_string(j, "numActive") { Some(s) => s, None => return None };
        let num_waiting = match get_string(j, "numWaiting") { Some(s) => s, None => return None };
        let num_stopped = match get_string(j, "numStopped") { Some(s) => s, None => return None };
        let num_stopped_total = match get_string(j, "numStoppedTotal") { Some(s) => s, None => return None };
        Some(GlobalStat { download_speed, upload_speed, num_active, num_waiting, num_stopped, num_stopped_total })
    }
}

} // verus!
