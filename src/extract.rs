use vstd::prelude::*;

use crate::json::Json;
use crate::model::{
    Aria2Res, Aria2Uri, Aria2File, GidStatus, ItemMetaData, is_status, decodes_status,
};
use crate::text::{text_eq, opt_text, copy_opt};

verus! {

/// The name a download gets when nothing better is known.
pub open spec fn untitled() -> Seq<char> {
    "<Untitled>"@
}

// ---- what the outside crates compute ----

/// What name resolution reads from a parsed URI: its scheme, its query
/// pairs (decoded, in order) and its path segments, where it has a path.
pub struct UriParts {
    pub scheme: String,
    pub query: Vec<(String, String)>,
    pub segments: Option<Vec<String>>,
}

pub open spec fn opt_texts(s: Option<Vec<String>>) -> Option<Seq<Seq<char>>> {
    match s {
        Some(v) => Some(v@.map_values(|t: String| t@)),
        None => None,
    }
}

pub open spec fn pairs_view(q: Seq<(String, String)>) -> Seq<(Seq<char>, Seq<char>)> {
    Seq::new(q.len(), |i: int| (q[i].0@, q[i].1@))
}

pub open spec fn parts_view(p: UriParts) -> (Seq<char>, Seq<(Seq<char>, Seq<char>)>, Option<Seq<Seq<char>>>) {
    (p.scheme@, pairs_view(p.query@), opt_texts(p.segments))
}

/// The parts of `s` parsed as a URL, if it parses.
pub uninterp spec fn uri_parts_of(s: Seq<char>) -> Option<(Seq<char>, Seq<(Seq<char>, Seq<char>)>, Option<Seq<Seq<char>>>)>;

/// `s` with percent escapes decoded, if the result is UTF-8.
pub uninterp spec fn percent_decoded(s: Seq<char>) -> Option<Seq<char>>;

/// The last component of the path `p`, if it has one.
pub uninterp spec fn file_name_of(p: Seq<char>) -> Option<Seq<char>>;

/// The lowercase hexadecimal digit of `d`.
pub open spec fn hex_char(d: nat) -> char {
    if d < 10 {
        crate::text::digit_char(d)
    } else if d == 10 {
        'a'
    } else if d == 11 {
        'b'
    } else if d == 12 {
        'c'
    } else if d == 13 {
        'd'
    } else if d == 14 {
        'e'
    } else {
        'f'
    }
}

/// How a character is written inside a JSON string: quote and backslash
/// are escaped, control characters get their short escape or `\u00xx`.
pub open spec fn json_char(c: char) -> Seq<char> {
    let u = c as u32;
    if c == '"' {
        seq!['\\', '"']
    } else if c == '\\' {
        seq!['\\', '\\']
    } else if u == 8 {
        seq!['\\', 'b']
    } else if u == 9 {
        seq!['\\', 't']
    } else if u == 10 {
        seq!['\\', 'n']
    } else if u == 12 {
        seq!['\\', 'f']
    } else if u == 13 {
        seq!['\\', 'r']
    } else if u < 0x20 {
        seq!['\\', 'u', '0', '0', hex_char((u / 16) as nat), hex_char((u % 16) as nat)]
    } else {
        seq![c]
    }
}

/// The characters of `s`, each written as inside a JSON string.
pub open spec fn json_chars(s: Seq<char>) -> Seq<char>
    decreases s.len(),
{
    if s.len() == 0 {
        Seq::empty()
    } else {
        json_chars(s.drop_last()) + json_char(s.last())
    }
}

/// The JSON string literal of `s`.
pub open spec fn json_string(s: Seq<char>) -> Seq<char> {
    seq!['"'] + json_chars(s) + seq!['"']
}

/// The literals of `v`, separated by commas.
pub open spec fn json_items(v: Seq<Seq<char>>) -> Seq<char>
    decreases v.len(),
{
    if v.len() == 0 {
        Seq::empty()
    } else if v.len() == 1 {
        json_string(v[0])
    } else {
        json_items(v.drop_last()) + seq![','] + json_string(v.last())
    }
}

/// The compact JSON text of a list of strings.
pub open spec fn json_of_strings(v: Seq<Seq<char>>) -> Seq<char> {
    seq!['['] + json_items(v) + seq![']']
}

/// Relies on `url::Url::parse` and, on its result, `scheme`, `query_pairs`
/// and `path_segments`: the parts depend on the text alone.
#[verifier::external_body]
fn parse_uri(s: &str) -> (r: Option<UriParts>)
    ensures
        match r {
            Some(p) => uri_parts_of(s@) == Some(parts_view(p)),
            None => uri_parts_of(s@) is None,
        },
{
    match url::Url::parse(s) {
        Ok(u) => Some(UriParts {
            scheme: u.scheme().to_string(),
            query: u.query_pairs().map(|(k, v)| (k.into_owned(), v.into_owned())).collect(),
            segments: u.path_segments().map(|p| p.map(|x| x.to_string()).collect()),
        }),
        Err(_) => None,
    }
}

/// Relies on `urlencoding::decode`: the result depends on the text alone.
#[verifier::external_body]
fn url_decode(s: &str) -> (r: Option<String>)
    ensures
        opt_text(r) == percent_decoded(s@),
{
    urlencoding::decode(s).ok().map(|d| d.into_owned())
}

/// Relies on `std::path::Path::file_name`: the last component of a path,
/// which for a `&str` path is always valid UTF-8.
#[verifier::external_body]
fn base_name(p: &str) -> (r: Option<String>)
    ensures
        opt_text(r) == file_name_of(p@),
{
    std::path::Path::new(p).file_name().and_then(|n| n.to_str()).map(|n| n.to_string())
}

/// Relies on `std::path::Path::exists`: whether something is on disk at
/// `p` now. Nothing is known of the answer.
#[verifier::external_body]
fn on_disk(p: &str) -> (r: bool)
{
    std::path::Path::new(p).exists()
}

/// Relies on `serde_json::to_string`, which cannot fail on a list of
/// strings and writes them in compact form, escaping as `format_escaped_str`
/// does.
#[verifier::external_body]
pub(crate) fn strings_json(v: &Vec<String>) -> (r: String)
    ensures
        r@ == json_of_strings(v@.map_values(|s: String| s@)),
{
    serde_json::to_string(v).unwrap_or_default()
}

// ---- blank text ----

/// Characters with the Unicode `White_Space` property.
pub open spec fn is_white_space(c: char) -> bool {
    let u = c as u32;
    (0x9 <= u <= 0xd) || u == 0x20 || u == 0x85 || u == 0xa0 || u == 0x1680
        || (0x2000 <= u <= 0x200a) || u == 0x2028 || u == 0x2029 || u == 0x202f
        || u == 0x205f || u == 0x3000
}

/// Nothing is left of `s` once white space is trimmed.
pub open spec fn is_blank(s: Seq<char>) -> bool {
    forall|i: int| 0 <= i < s.len() ==> is_white_space(#[trigger] s[i])
}

pub fn blank(s: &str) -> (r: bool)
    ensures
        r == is_blank(s@),
{
    let n = s.unicode_len();
    let mut i: usize = 0;
    while i < n
        invariant
            n == s@.len(),
            i <= n,
            forall|j: int| 0 <= j < i ==> is_white_space(#[trigger] s@[j]),
        decreases n - i,
    {
        let u = s.get_char(i) as u32;
        let white = (0x9 <= u && u <= 0xd) || u == 0x20 || u == 0x85 || u == 0xa0 || u == 0x1680
            || (0x2000 <= u && u <= 0x200a) || u == 0x2028 || u == 0x2029 || u == 0x202f
            || u == 0x205f || u == 0x3000;
        if !white {
            return false;
        }
        i = i + 1;
    }
    true
}

// ---- integers ----

pub open spec fn is_digit(c: char) -> bool {
    '0' <= c <= '9'
}

pub open spec fn digits_value(s: Seq<char>) -> int
    decreases s.len(),
{
    if s.len() == 0 {
        0
    } else {
        10 * digits_value(s.drop_last()) + (s.last() as int - '0' as int)
    }
}

pub open spec fn all_digits(s: Seq<char>) -> bool {
    forall|i: int| 0 <= i < s.len() ==> is_digit(#[trigger] s[i])
}

/// `s` without its leading sign, if it has one.
pub open spec fn unsigned_part(s: Seq<char>) -> Seq<char> {
    if s.len() > 0 && (s[0] == '-' || s[0] == '+') {
        s.drop_first()
    } else {
        s
    }
}

/// The `i64` written in decimal by `s`, with an optional sign.
pub open spec fn parsed_i64(s: Seq<char>) -> Option<int> {
    let neg = s.len() > 0 && s[0] == '-';
    let body = unsigned_part(s);
    let v = if neg { -digits_value(body) } else { digits_value(body) };
    if body.len() > 0 && all_digits(body) && i64::MIN <= v <= i64::MAX {
        Some(v)
    } else {
        None
    }
}

proof fn lemma_digits_nonneg(s: Seq<char>)
    requires
        forall|k: int| 0 <= k < s.len() ==> is_digit(#[trigger] s[k]),
    ensures
        digits_value(s) >= 0,
    decreases s.len(),
{
    if s.len() > 0 {
        let t = s.drop_last();
        assert forall|k: int| 0 <= k < t.len() implies is_digit(#[trigger] t[k]) by {
            assert(t[k] == s[k]);
        }
        lemma_digits_nonneg(t);
        assert(is_digit(s[s.len() - 1]));
    }
}

proof fn lemma_digits_grow(s: Seq<char>, i: int)
    requires
        0 <= i <= s.len(),
        forall|k: int| 0 <= k < s.len() ==> is_digit(#[trigger] s[k]),
    ensures
        digits_value(s) >= digits_value(s.subrange(0, i)),
    decreases s.len(),
{
    if i == s.len() {
        assert(s.subrange(0, i) =~= s);
    } else {
        let t = s.drop_last();
        assert forall|k: int| 0 <= k < t.len() implies is_digit(#[trigger] t[k]) by {
            assert(t[k] == s[k]);
        }
        lemma_digits_grow(t, i);
        lemma_digits_nonneg(t);
        assert(t.subrange(0, i) =~= s.subrange(0, i));
        assert(is_digit(s[s.len() - 1]));
    }
}

/// Parses a decimal `i64`, as `str::parse` does.
pub fn parse_i64(s: &str) -> (r: Option<i64>)
    ensures
        match parsed_i64(s@) {
            Some(v) => r == Some(v as i64),
            None => r is None,
        },
{
    let n = s.unicode_len();
    if n == 0 {
        return None;
    }
    let c0 = s.get_char(0);
    let neg = c0 == '-';
    let start: usize = if c0 == '-' || c0 == '+' { 1 } else { 0 };
    let ghost body = unsigned_part(s@);
    assert(body =~= s@.subrange(start as int, n as int));
    if start == n {
        return None;
    }
    let limit: u64 = if neg { 9223372036854775808 } else { 9223372036854775807 };
    let mut acc: u64 = 0;
    let mut i: usize = start;
    while i < n
        invariant
            n == s@.len(),
            start <= i <= n,
            start <= 1,
            body == s@.subrange(start as int, n as int),
            body == unsigned_part(s@),
            n > 0,
            neg == (s@[0] == '-'),
            limit == (if neg { 9223372036854775808u64 } else { 9223372036854775807u64 }),
            acc <= limit,
            acc == digits_value(body.subrange(0, i - start)),
            forall|k: int| 0 <= k < i - start ==> is_digit(#[trigger] body[k]),
        decreases n - i,
    {
        let c = s.get_char(i);
        assert(body[i - start] == c);
        if !('0' <= c && c <= '9') {
            assert(!is_digit(body[i - start]));
            return None;
        }
        assert('0' as u32 <= c as u32 <= '9' as u32);
        let d = (c as u32 - '0' as u32) as u64;
        assert(d <= 9);
        proof {
            let p = body.subrange(0, i - start + 1);
            assert(p.drop_last() =~= body.subrange(0, i - start));
        }
        if acc > (limit - d) / 10 {
            proof {
                assert(digits_value(body.subrange(0, i - start + 1)) > limit) by (nonlinear_arith)
                    requires
                        digits_value(body.subrange(0, i - start + 1)) == 10 * acc + d,
                        acc > (limit - d) / 10,
                        d <= 9,
                        limit >= 9,
                ;
                if all_digits(body) {
                    lemma_digits_grow(body, i - start + 1);
                }
            }
            return None;
        }
        acc = acc * 10 + d;
        i = i + 1;
    }
    assert(body.subrange(0, n - start) =~= body);
    if neg {
        if acc == 9223372036854775808 {
            Some(i64::MIN)
        } else {
            Some(-(acc as i64))
        }
    } else {
        Some(acc as i64)
    }
}

// ---- name resolution ----

/// The first `dn` query pair that is not blank.
pub open spec fn first_dn(q: Seq<(Seq<char>, Seq<char>)>) -> Option<Seq<char>>
    decreases q.len(),
{
    if q.len() == 0 {
        None
    } else if q[0].0 == "dn"@ && !is_blank(q[0].1) {
        Some(q[0].1)
    } else {
        first_dn(q.drop_first())
    }
}

/// The last of the path segments, if there are any.
pub open spec fn last_segment(segs: Option<Seq<Seq<char>>>) -> Option<Seq<char>> {
    match segs {
        Some(v) => if v.len() > 0 { Some(v.last()) } else { None },
        None => None,
    }
}

/// The name a URI gives: the `dn` of a magnet link, or else the decoded
/// last segment of its path.
pub open spec fn uri_name(u: Seq<char>) -> Option<Seq<char>> {
    match uri_parts_of(u) {
        None => None,
        Some(p) => if p.0 == "magnet"@ {
            first_dn(p.1)
        } else {
            match last_segment(p.2) {
                Some(seg) => match percent_decoded(seg) {
                    Some(d) => if !is_blank(d) { Some(d) } else { None },
                    None => None,
                },
                None => None,
            }
        },
    }
}

/// The first name that one of the URIs gives.
pub open spec fn first_uri_name(us: Seq<Aria2Uri>) -> Option<Seq<char>>
    decreases us.len(),
{
    if us.len() == 0 {
        None
    } else {
        match uri_name(us[0].uri@) {
            Some(n) => Some(n),
            None => first_uri_name(us.drop_first()),
        }
    }
}

/// The first name that a URI of one of the files gives.
pub open spec fn files_uri_name(fs: Seq<Aria2File>) -> Option<Seq<char>>
    decreases fs.len(),
{
    if fs.len() == 0 {
        None
    } else {
        match first_uri_name(fs[0].uris@) {
            Some(n) => Some(n),
            None => files_uri_name(fs.drop_first()),
        }
    }
}

/// The torrent's own name, if it has a non-empty one.
pub open spec fn torrent_name(r: Aria2Res) -> Option<Seq<char>> {
    match r.bittorrent {
        Some(bt) => match bt.info {
            Some(info) => match info.name {
                Some(n) => if n@.len() > 0 { Some(n@) } else { None },
                None => None,
            },
            None => None,
        },
        None => None,
    }
}

/// The last component of the first file's path, if that path is not empty.
pub open spec fn path_name(r: Aria2Res) -> Option<Seq<char>> {
    if r.files@.len() > 0 && r.files@[0].path@.len() > 0 {
        file_name_of(r.files@[0].path@)
    } else {
        None
    }
}

/// The name of a download: the torrent's name, else the first file's name,
/// else what one of the URIs gives, else `<Untitled>`.
pub open spec fn resolved_name(r: Aria2Res) -> Seq<char> {
    if torrent_name(r) is Some {
        torrent_name(r)->0
    } else if path_name(r) is Some {
        path_name(r)->0
    } else if files_uri_name(r.files@) is Some {
        files_uri_name(r.files@)->0
    } else {
        untitled()
    }
}

fn dn_of(q: &Vec<(String, String)>) -> (r: Option<String>)
    ensures
        opt_text(r) == first_dn(pairs_view(q@)),
{
    let ghost all = pairs_view(q@);
    let n = q.len();
    let mut i: usize = 0;
    assert(all.subrange(0, n as int) =~= all);
    while i < n
        invariant
            n == q@.len(),
            all == pairs_view(q@),
            i <= n,
            first_dn(all) == first_dn(all.subrange(i as int, n as int)),
        decreases n - i,
    {
        let ghost rest = all.subrange(i as int, n as int);
        assert(rest.drop_first() =~= all.subrange(i + 1, n as int));
        assert(rest[0] == (q@[i as int].0@, q@[i as int].1@));
        if text_eq(q[i].0.as_str(), "dn") && !blank(q[i].1.as_str()) {
            return Some(q[i].1.clone());
        }
        i = i + 1;
    }
    assert(all.subrange(n as int, n as int) =~= Seq::<(Seq<char>, Seq<char>)>::empty());
    None
}

fn name_from_uri(u: &str) -> (r: Option<String>)
    ensures
        opt_text(r) == uri_name(u@),
{
    match parse_uri(u) {
        None => None,
        Some(p) => {
            if text_eq(p.scheme.as_str(), "magnet") {
                dn_of(&p.query)
            } else {
                let last = match &p.segments {
                    Some(v) => if v.len() > 0 {
                        proof { assert(v@.map_values(|t: String| t@).last() == v@[v.len() - 1]@); }
                        Some(&v[v.len() - 1])
                    } else {
                        None
                    },
                    None => None,
                };
                match last {
                    Some(seg) => match url_decode(seg.as_str()) {
                        Some(d) => if !blank(d.as_str()) { Some(d) } else { None },
                        None => None,
                    },
                    None => None,
                }
            }
        },
    }
}

fn name_from_uris(us: &Vec<Aria2Uri>) -> (r: Option<String>)
    ensures
        opt_text(r) == first_uri_name(us@),
{
    let n = us.len();
    let mut i: usize = 0;
    assert(us@.subrange(0, n as int) =~= us@);
    while i < n
        invariant
            n == us@.len(),
            i <= n,
            first_uri_name(us@) == first_uri_name(us@.subrange(i as int, n as int)),
        decreases n - i,
    {
        assert(us@.subrange(i as int, n as int).drop_first() =~= us@.subrange(i + 1, n as int));
        match name_from_uri(us[i].uri.as_str()) {
            Some(name) => return Some(name),
            None => {},
        }
        i = i + 1;
    }
    assert(us@.subrange(n as int, n as int) =~= Seq::<Aria2Uri>::empty());
    None
}

fn name_from_files(fs: &Vec<Aria2File>) -> (r: Option<String>)
    ensures
        opt_text(r) == files_uri_name(fs@),
{
    let n = fs.len();
    let mut i: usize = 0;
    assert(fs@.subrange(0, n as int) =~= fs@);
    while i < n
        invariant
            n == fs@.len(),
            i <= n,
            files_uri_name(fs@) == files_uri_name(fs@.subrange(i as int, n as int)),
        decreases n - i,
    {
        assert(fs@.subrange(i as int, n as int).drop_first() =~= fs@.subrange(i + 1, n as int));
        match name_from_uris(&fs[i].uris) {
            Some(name) => return Some(name),
            None => {},
        }
        i = i + 1;
    }
    assert(fs@.subrange(n as int, n as int) =~= Seq::<Aria2File>::empty());
    None
}

// ---- rows ----

/// The state a daemon status string maps to; `removed` counts as stopped
/// while one of the download's files is still on disk.
pub open spec fn mapped_status(s: Seq<char>, any_on_disk: bool) -> GidStatus {
    if s == "active"@ {
        GidStatus::Active
    } else if s == "waiting"@ {
        GidStatus::Waiting
    } else if s == "paused"@ {
        GidStatus::Paused
    } else if s == "error"@ {
        GidStatus::Error
    } else if s == "complete"@ {
        GidStatus::Complete
    } else if s == "removed"@ {
        if any_on_disk { GidStatus::Stopped } else { GidStatus::Removed }
    } else {
        GidStatus::Stopped
    }
}

/// The non-empty file paths, in order.
pub open spec fn file_paths(fs: Seq<Aria2File>) -> Seq<Seq<char>>
    decreases fs.len(),
{
    if fs.len() == 0 {
        Seq::empty()
    } else {
        let rest = file_paths(fs.drop_last());
        if fs.last().path@.len() > 0 { rest.push(fs.last().path@) } else { rest }
    }
}

/// The first non-empty URI of the first file.
pub open spec fn first_source(us: Seq<Aria2Uri>) -> Option<Seq<char>>
    decreases us.len(),
{
    if us.len() == 0 {
        None
    } else if us[0].uri@.len() > 0 {
        Some(us[0].uri@)
    } else {
        first_source(us.drop_first())
    }
}

pub open spec fn source_of(r: Aria2Res) -> Option<Seq<char>> {
    if r.files@.len() > 0 { first_source(r.files@[0].uris@) } else { None }
}

/// The row for a download whose status could not be read.
pub open spec fn is_skeleton(m: ItemMetaData, gid: Seq<char>) -> bool {
    &&& m.gid@ == gid
    &&& opt_text(m.name) == Some(untitled())
    &&& m.status == GidStatus::Waiting
    &&& m.is_torrent == Some(false)
    &&& opt_text(m.total_length) == Some("0"@)
    &&& opt_text(m.completed_length) == Some("0"@)
    &&& opt_text(m.uploaded_length) == Some("0"@)
    &&& m.dir is None && m.files is None && m.source_uri is None && m.info_hash is None
    &&& m.error_code is None && m.error_message is None
    &&& m.created_at is None && m.completed_at is None && m.updated_at is None
    &&& m.user_id == 0
}

/// The row extracted from the status `r` of download `gid`.
pub open spec fn is_extracted(m: ItemMetaData, r: Aria2Res, gid: Seq<char>, any_on_disk: bool) -> bool {
    &&& m.gid@ == gid
    &&& opt_text(m.name) == Some(resolved_name(r))
    &&& m.status == mapped_status(r.status@, any_on_disk)
    &&& m.is_torrent == Some(r.bittorrent is Some)
    &&& opt_text(m.total_length) == Some(r.total_length@)
    &&& opt_text(m.completed_length) == Some(r.completed_length@)
    &&& opt_text(m.uploaded_length) == Some(r.upload_length@)
    &&& opt_text(m.dir) == Some(r.dir@)
    &&& opt_text(m.files) == Some(json_of_strings(file_paths(r.files@)))
    &&& opt_text(m.source_uri) == source_of(r)
    &&& m.info_hash == r.info_hash
    &&& m.error_code == match r.error_code {
        Some(c) => match parsed_i64(c@) {
            Some(v) => Some(v as i64),
            None => None,
        },
        None => None,
    }
    &&& m.error_message == r.error_message
    &&& m.created_at is None && m.completed_at is None && m.updated_at is None
    &&& m.user_id == 0
}

pub fn paths_of(fs: &Vec<Aria2File>) -> (r: Vec<String>)
    ensures
        r@.map_values(|s: String| s@) == file_paths(fs@),
{
    let mut out: Vec<String> = Vec::new();
    let mut i: usize = 0;
    while i < fs.len()
        invariant
            i <= fs.len(),
            out@.map_values(|s: String| s@) == file_paths(fs@.subrange(0, i as int)),
        decreases fs.len() - i,
    {
        assert(fs@.subrange(0, i + 1).drop_last() =~= fs@.subrange(0, i as int));
        let ghost before = out@;
        if fs[i].path.unicode_len() > 0 {
            out.push(fs[i].path.clone());
            assert(out@.map_values(|s: String| s@) =~= before.map_values(|s: String| s@).push(fs@[i as int].path@));
        }
        i = i + 1;
    }
    assert(fs@.subrange(0, i as int) =~= fs@);
    out
}

fn source_from(us: &Vec<Aria2Uri>) -> (r: Option<String>)
    ensures
        opt_text(r) == first_source(us@),
{
    let n = us.len();
    let mut i: usize = 0;
    assert(us@.subrange(0, n as int) =~= us@);
    while i < n
        invariant
            n == us@.len(),
            i <= n,
            first_source(us@) == first_source(us@.subrange(i as int, n as int)),
        decreases n - i,
    {
        assert(us@.subrange(i as int, n as int).drop_first() =~= us@.subrange(i + 1, n as int));
        if us[i].uri.unicode_len() > 0 {
            return Some(us[i].uri.clone());
        }
        i = i + 1;
    }
    assert(us@.subrange(n as int, n as int) =~= Seq::<Aria2Uri>::empty());
    None
}

fn any_on_disk(paths: &Vec<String>) -> (r: bool)
{
    let mut i: usize = 0;
    while i < paths.len()
        invariant
            i <= paths.len(),
        decreases paths.len() - i,
    {
        if on_disk(paths[i].as_str()) {
            return true;
        }
        i = i + 1;
    }
    false
}

/// `m` is the row extracted from the status object `j` of download `gid`:
/// the skeleton row where `j` does not decode.
pub open spec fn extracted_from(j: crate::json::JValue, gid: Seq<char>, m: ItemMetaData) -> bool {
    &&& !is_status(j) ==> is_skeleton(m, gid)
    &&& is_status(j) ==> exists|info: Aria2Res, d: bool|
        decodes_status(j, info) && #[trigger] is_extracted(m, info, gid, d)
}

/// Turns the daemon's status of a download into a history row.
pub struct Extraction;

impl Extraction {
    /// The name of a download, by the first rule that gives one.
    pub fn resolve_name(info: &Aria2Res) -> (r: String)
        ensures
            r@ == resolved_name(*info),
    {
        match &info.bittorrent {
            Some(bt) => match &bt.info {
                Some(i) => match &i.name {
                    Some(n) => if n.unicode_len() > 0 {
                        return n.clone();
                    },
                    None => {},
                },
                None => {},
            },
            None => {},
        }
        if info.files.len() > 0 && info.files[0].path.unicode_len() > 0 {
            match base_name(info.files[0].path.as_str()) {
                Some(n) => return n,
                None => {},
            }
        }
        match name_from_files(&info.files) {
            Some(n) => n,
            None => String::from_str("<Untitled>"),
        }
    }

    /// The row for a download whose status could not be read.
    pub fn skeleton(gid: &str) -> (r: ItemMetaData)
        ensures
            is_skeleton(r, gid@),
    {
        ItemMetaData {
            gid: String::from_str(gid),
            name: Some(String::from_str("<Untitled>")),
            status: GidStatus::Waiting,
            dir: None,
            files: None,
            total_length: Some(String::from_str("0")),
            completed_length: Some(String::from_str("0")),
            uploaded_length: Some(String::from_str("0")),
            source_uri: None,
            info_hash: None,
            error_code: None,
            error_message: None,
            is_torrent: Some(false),
            created_at: None,
            completed_at: None,
            updated_at: None,
            user_id: 0,
        }
    }

    /// The state a daemon status string maps to, given whether one of the
    /// download's files is on disk.
    pub fn status_of(status: &str, any_on_disk: bool) -> (r: GidStatus)
        ensures
            r == mapped_status(status@, any_on_disk),
    {
        if text_eq(status, "active") {
            GidStatus::Active
        } else if text_eq(status, "waiting") {
            GidStatus::Waiting
        } else if text_eq(status, "paused") {
            GidStatus::Paused
        } else if text_eq(status, "error") {
            GidStatus::Error
        } else if text_eq(status, "complete") {
            GidStatus::Complete
        } else if text_eq(status, "removed") {
            if any_on_disk { GidStatus::Stopped } else { GidStatus::Removed }
        } else {
            GidStatus::Stopped
        }
    }

    /// The row for download `gid` from its decoded status, given whether
    /// one of its files is on disk.
    pub fn row_from(info: &Aria2Res, gid: &str, any_on_disk: bool) -> (r: ItemMetaData)
        ensures
            is_extracted(r, *info, gid@, any_on_disk),
    {
        let paths = paths_of(&info.files);
        let files = strings_json(&paths);
        let source_uri = if info.files.len() > 0 { source_from(&info.files[0].uris) } else { None };
        let error_code = match &info.error_code {
            Some(c) => parse_i64(c.as_str()),
            None => None,
        };
        ItemMetaData {
            gid: String::from_str(gid),
            name: Some(Self::resolve_name(info)),
            status: Self::status_of(info.status.as_str(), any_on_disk),
            dir: Some(info.dir.clone()),
            files: Some(files),
            total_length: Some(info.total_length.clone()),
            completed_length: Some(info.completed_length.clone()),
            uploaded_length: Some(info.upload_length.clone()),
            source_uri,
            info_hash: copy_opt(&info.info_hash),
            error_code,
            error_message: copy_opt(&info.error_message),
            is_torrent: Some(info.bittorrent.is_some()),
            created_at: None,
            completed_at: None,
            updated_at: None,
            user_id: 0,
        }
    }

    /// The row for download `gid` from the daemon's status object: the
    /// skeleton row where it does not decode. Only for a `removed` download
    /// does the disk decide, between stopped and removed.
    pub fn extract(json: &Json, gid: &str) -> (r: ItemMetaData)
        ensures
            extracted_from(json@, gid@, r),
    {
        match Aria2Res::from_json(json) {
            None => Self::skeleton(gid),
            Some(info) => {
                let d = if text_eq(info.status.as_str(), "removed") {
                    any_on_disk(&paths_of(&info.files))
                } else {
                    false
                };
                let r = Self::row_from(&info, gid, d);
                assert(decodes_status(json@, info) && is_extracted(r, info, gid@, d));
                r
            },
        }
    }
}

} // verus!
