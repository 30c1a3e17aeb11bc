use vstd::prelude::*;

use crate::json::{Json, JValue, values_view, members_view, lemma_arr_view, lemma_obj_view};
use crate::text::text_eq;

verus! {

/// A request naming one download.
pub struct GidRequest {
    pub gid: String,
}

/// One torrent to add: the file's content in base64, and its options.
pub struct TorrentItem {
    pub torrent: String,
    pub options: Option<Json>,
}

pub struct BatchAddTorrentRequest {
    pub torrents: Vec<TorrentItem>,
}

pub struct AddTorrentReq {
    pub torrent: String,
    pub options: Option<Json>,
}

pub struct AddUriReq {
    pub uris: Vec<String>,
    pub options: Option<Json>,
}

pub struct GlobalOptionReq {
    pub options: Json,
}

/// Moves a download in the queue: `how` is `POS_SET`, `POS_CUR` or `POS_END`.
pub struct MoveReq {
    pub gid: String,
    pub pos: i32,
    pub how: String,
}

/// A sub-call `{methodName: name, params: params}` of a multicall.
pub open spec fn sub_call(name: Seq<char>, params: Seq<JValue>) -> JValue {
    JValue::Obj(seq![("methodName"@, JValue::Str(name)), ("params"@, JValue::Arr(params))])
}

fn make_call(name: &str, params: Vec<Json>) -> (r: Json)
    ensures
        r@ == sub_call(name@, values_view(params@)),
{
    proof { lemma_arr_view(params); }
    let ghost pv = values_view(params@);
    let mut fs: Vec<(String, Json)> = Vec::new();
    fs.push((String::from_str("methodName"), Json::Str(String::from_str(name))));
    fs.push((String::from_str("params"), Json::Arr(params)));
    proof {
        lemma_obj_view(fs);
        assert(members_view(fs@) =~= seq![("methodName"@, JValue::Str(name@)), ("params"@, JValue::Arr(pv))]);
    }
    Json::Obj(fs)
}

/// An empty object.
pub open spec fn empty_object() -> JValue {
    JValue::Obj(Seq::empty())
}

/// The options given, or an empty object.
pub open spec fn options_of(options: Option<Json>) -> JValue {
    match options {
        Some(o) => o@,
        None => empty_object(),
    }
}

fn options_or_empty(options: &Option<Json>) -> (r: Json)
    ensures
        r@ == options_of(*options),
{
    match options {
        Some(o) => o.copy(),
        None => {
            let fs: Vec<(String, Json)> = Vec::new();
            proof {
                lemma_obj_view(fs);
                assert(members_view(fs@) =~= Seq::<(Seq<char>, JValue)>::empty());
            }
            Json::Obj(fs)
        },
    }
}

/// The parameters of a multicall holding the sub-calls `calls`.
pub open spec fn multicall_params(calls: Seq<JValue>) -> Seq<JValue> {
    seq![JValue::Arr(calls)]
}

fn wrap_calls(calls: Vec<Json>) -> (r: Vec<Json>)
    ensures
        values_view(r@) == multicall_params(values_view(calls@)),
{
    proof { lemma_arr_view(calls); }
    let ghost cv = values_view(calls@);
    let mut r: Vec<Json> = Vec::new();
    r.push(Json::Arr(calls));
    assert(values_view(r@) =~= multicall_params(cv));
    r
}

/// The `addUri` sub-call for one URI.
pub open spec fn add_uri_call(uri: Seq<char>, options: JValue) -> JValue {
    sub_call("aria2.addUri"@, seq![JValue::Arr(seq![JValue::Str(uri)]), options])
}

/// The multicall parameters that add each URI as a download of its own,
/// all with the same options.
pub fn add_uris_params(req: &AddUriReq) -> (r: Vec<Json>)
    ensures
        values_view(r@) == multicall_params(req.uris@.map_values(|u: String| add_uri_call(
            u@,
            options_of(req.options),
        ))),
{
    let ghost opts = options_of(req.options);
    let mut calls: Vec<Json> = Vec::new();
    let mut i: usize = 0;
    while i < req.uris.len()
        invariant
            i <= req.uris.len(),
            calls@.len() == i,
            opts == options_of(req.options),
            forall|k: int| 0 <= k < i ==> (#[trigger] calls@[k])@ == add_uri_call(req.uris@[k]@, opts),
        decreases req.uris.len() - i,
    {
        let mut mirrors: Vec<Json> = Vec::new();
        mirrors.push(Json::Str(req.uris[i].clone()));
        proof {
            lemma_arr_view(mirrors);
            assert(values_view(mirrors@) =~= seq![JValue::Str(req.uris@[i as int]@)]);
        }
        let mut params: Vec<Json> = Vec::new();
        params.push(Json::Arr(mirrors));
        params.push(options_or_empty(&req.options));
        let ghost pv = values_view(params@);
        assert(pv =~= seq![JValue::Arr(seq![JValue::Str(req.uris@[i as int]@)]), opts]);
        calls.push(make_call("aria2.addUri", params));
        i = i + 1;
    }
    assert(values_view(calls@) =~= req.uris@.map_values(|u: String| add_uri_call(u@, opts)));
    wrap_calls(calls)
}

/// The `addTorrent` sub-call for one torrent, with no web seeds.
pub open spec fn add_torrent_call(torrent: Seq<char>, options: JValue) -> JValue {
    sub_call("aria2.addTorrent"@, seq![JValue::Str(torrent), JValue::Arr(Seq::empty()), options])
}

pub open spec fn item_options(item: TorrentItem) -> JValue {
    options_of(item.options)
}

/// The multicall parameters that add each torrent; `None` where there is
/// no torrent to add.
pub fn add_torrents_params(req: &BatchAddTorrentRequest) -> (r: Option<Vec<Json>>)
    ensures
        req.torrents@.len() == 0 <==> r is None,
        r matches Some(p) ==> values_view(p@) == multicall_params(req.torrents@.map_values(
            |t: TorrentItem| add_torrent_call(t.torrent@, item_options(t)),
        )),
{
    if req.torrents.len() == 0 {
        return None;
    }
    let mut calls: Vec<Json> = Vec::new();
    let mut i: usize = 0;
    while i < req.torrents.len()
        invariant
            i <= req.torrents.len(),
            calls@.len() == i,
            forall|k: int| 0 <= k < i ==> (#[trigger] calls@[k])@ == add_torrent_call(
                req.torrents@[k].torrent@,
                item_options(req.torrents@[k]),
            ),
        decreases req.torrents.len() - i,
    {
        let seeds: Vec<Json> = Vec::new();
        proof {
            lemma_arr_view(seeds);
            assert(values_view(seeds@) =~= Seq::<JValue>::empty());
        }
        let mut params: Vec<Json> = Vec::new();
        params.push(Json::Str(req.torrents[i].torrent.clone()));
        params.push(Json::Arr(seeds));
        params.push(options_or_empty(&req.torrents[i].options));
        assert(values_view(params@) =~= seq![
            JValue::Str(req.torrents@[i as int].torrent@),
            JValue::Arr(Seq::empty()),
            item_options(req.torrents@[i as int]),
        ]);
        calls.push(make_call("aria2.addTorrent", params));
        i = i + 1;
    }
    assert(values_view(calls@) =~= req.torrents@.map_values(
        |t: TorrentItem| add_torrent_call(t.torrent@, item_options(t)),
    ));
    Some(wrap_calls(calls))
}

/// The parameters of `addTorrent` for one torrent, with no web seeds.
pub fn add_torrent_params(req: &AddTorrentReq) -> (r: Vec<Json>)
    ensures
        values_view(r@) == seq![JValue::Str(req.torrent@), JValue::Arr(Seq::empty()), options_of(req.options)],
{
    let seeds: Vec<Json> = Vec::new();
    proof {
        lemma_arr_view(seeds);
        assert(values_view(seeds@) =~= Seq::<JValue>::empty());
    }
    let mut params: Vec<Json> = Vec::new();
    params.push(Json::Str(req.torrent.clone()));
    params.push(Json::Arr(seeds));
    params.push(options_or_empty(&req.options));
    assert(values_view(params@) =~= seq![
        JValue::Str(req.torrent@),
        JValue::Arr(Seq::empty()),
        options_of(req.options),
    ]);
    params
}

/// The gids that a multicall adding downloads returned: for each answer
/// whose first element is a string, its index and that string.
pub open spec fn added_gids_of(results: Seq<JValue>) -> Seq<(int, Seq<char>)>
    decreases results.len(),
{
    if results.len() == 0 {
        Seq::empty()
    } else {
        let rest = added_gids_of(results.drop_last());
        match results.last().first() {
            Some(JValue::Str(g)) => rest.push(((results.len() - 1) as int, g)),
            _ => rest,
        }
    }
}

pub fn added_gids(response: &Json) -> (r: Vec<(usize, String)>)
    ensures
        r@.map_values(|p: (usize, String)| (p.0 as int, p.1@)) == match response@ {
            JValue::Arr(a) => added_gids_of(a),
            _ => Seq::empty(),
        },
{
    let mut out: Vec<(usize, String)> = Vec::new();
    let results = match response.as_array() {
        Some(a) => a,
        None => {
            assert(out@.map_values(|p: (usize, String)| (p.0 as int, p.1@)) =~= Seq::<(int, Seq<char>)>::empty());
            return out;
        },
    };
    let ghost rv = values_view(results@);
    let mut i: usize = 0;
    assert(out@.map_values(|p: (usize, String)| (p.0 as int, p.1@)) =~= added_gids_of(rv.subrange(0, 0)));
    while i < results.len()
        invariant
            rv == values_view(results@),
            i <= results.len(),
            out@.map_values(|p: (usize, String)| (p.0 as int, p.1@)) == added_gids_of(rv.subrange(0, i as int)),
        decreases results.len() - i,
    {
        assert(rv.subrange(0, i + 1).drop_last() =~= rv.subrange(0, i as int));
        assert(rv[i as int] == results@[i as int]@);
        let ghost before = out@;
        match results[i].as_array() {
            Some(a) => if a.len() > 0 {
                proof { assert(values_view(a@)[0] == a@[0]@); }
                match a[0].as_str() {
                    Some(g) => {
                        out.push((i, g.clone()));
                        assert(out@.map_values(|p: (usize, String)| (p.0 as int, p.1@)) =~= before.map_values(
                            |p: (usize, String)| (p.0 as int, p.1@),
                        ).push((i as int, g@)));
                    },
                    None => {},
                }
            },
            None => {},
        }
        i = i + 1;
    }
    assert(rv.subrange(0, i as int) =~= rv);
    out
}

/// The parameters of a call about one download: `[gid]`.
pub fn gid_params(gid: &String) -> (r: Vec<Json>)
    ensures
        values_view(r@) == seq![JValue::Str(gid@)],
{
    let mut r: Vec<Json> = Vec::new();
    r.push(Json::Str(gid.clone()));
    assert(values_view(r@) =~= seq![JValue::Str(gid@)]);
    r
}

/// The multicall parameters that ask for a download's files, peers and
/// servers.
pub fn details_params(gid: &String) -> (r: Vec<Json>)
    ensures
        values_view(r@) == multicall_params(seq![
            sub_call("aria2.getFiles"@, seq![JValue::Str(gid@)]),
            sub_call("aria2.getPeers"@, seq![JValue::Str(gid@)]),
            sub_call("aria2.getServers"@, seq![JValue::Str(gid@)]),
        ]),
{
    let mut calls: Vec<Json> = Vec::new();
    calls.push(make_call("aria2.getFiles", gid_params(gid)));
    calls.push(make_call("aria2.getPeers", gid_params(gid)));
    calls.push(make_call("aria2.getServers", gid_params(gid)));
    assert(values_view(calls@) =~= seq![
        sub_call("aria2.getFiles"@, seq![JValue::Str(gid@)]),
        sub_call("aria2.getPeers"@, seq![JValue::Str(gid@)]),
        sub_call("aria2.getServers"@, seq![JValue::Str(gid@)]),
    ]);
    wrap_calls(calls)
}

pub open spec fn is_move_mode(how: Seq<char>) -> bool {
    how == "POS_SET"@ || how == "POS_CUR"@ || how == "POS_END"@
}

/// The parameters of `changePosition`; `None` where `how` is not one of
/// `POS_SET`, `POS_CUR` and `POS_END`.
pub fn move_params(req: &MoveReq) -> (r: Option<Vec<Json>>)
    ensures
        !is_move_mode(req.how@) <==> r is None,
        r matches Some(p) ==> values_view(p@) == seq![
            JValue::Str(req.gid@),
            JValue::Int(req.pos as int),
            JValue::Str(req.how@),
        ],
{
    let h = req.how.as_str();
    if !(text_eq(h, "POS_SET") || text_eq(h, "POS_CUR") || text_eq(h, "POS_END")) {
        return None;
    }
    let mut r: Vec<Json> = Vec::new();
    r.push(Json::Str(req.gid.clone()));
    r.push(Json::Int(req.pos as i64));
    r.push(Json::Str(req.how.clone()));
    assert(values_view(r@) =~= seq![JValue::Str(req.gid@), JValue::Int(req.pos as int), JValue::Str(req.how@)]);
    Some(r)
}

/// The parameters of `changeGlobalOption`: `[options]`.
pub fn global_option_params(req: &GlobalOptionReq) -> (r: Vec<Json>)
    ensures
        values_view(r@) == seq![req.options@],
{
    let mut r: Vec<Json> = Vec::new();
    r.push(req.options.copy());
    assert(values_view(r@) =~= seq![req.options@]);
    r
}

/// The URI at position `i` of `uris`, or the empty text past its end.
pub open spec fn source_at(uris: Seq<String>, i: int) -> Seq<char> {
    if 0 <= i < uris.len() { uris[i]@ } else { Seq::empty() }
}

/// Each gid an `addUri` multicall returned, with the URI it was added from.
pub open spec fn uri_gids_of(results: Seq<JValue>, uris: Seq<String>) -> Seq<(Seq<char>, Seq<char>)> {
    added_gids_of(results).map_values(|p: (int, Seq<char>)| (p.1, source_at(uris, p.0)))
}

/// Pairs each gid that the multicall built by `add_uris_params(req)`
/// returned with the URI it was added from.
pub fn uri_gids(req: &AddUriReq, response: &Json) -> (r: Vec<(String, String)>)
    ensures
        r@.map_values(|p: (String, String)| (p.0@, p.1@)) == match response@ {
            JValue::Arr(a) => uri_gids_of(a, req.uris@),
            _ => Seq::empty(),
        },
{
    let added = added_gids(response);
    let ghost av = added@.map_values(|p: (usize, String)| (p.0 as int, p.1@));
    let mut out: Vec<(String, String)> = Vec::new();
    let mut k: usize = 0;
    while k < added.len()
        invariant
            k <= added@.len(),
            out@.len() == k,
            av == added@.map_values(|p: (usize, String)| (p.0 as int, p.1@)),
            out@.map_values(|p: (String, String)| (p.0@, p.1@))
                == av.subrange(0, k as int).map_values(|p: (int, Seq<char>)| (p.1, source_at(req.uris@, p.0))),
        decreases added@.len() - k,
    {
        let i = added[k].0;
        let source = if i < req.uris.len() { req.uris[i].clone() } else { String::new() };
        let ghost prev = out@;
        proof {
            assert(av[k as int] == (i as int, added@[k as int].1@));
            assert(source@ == source_at(req.uris@, i as int));
        }
        out.push((added[k].1.clone(), source));
        proof {
            let lhs = out@.map_values(|p: (String, String)| (p.0@, p.1@));
            let rhs = av.subrange(0, k + 1).map_values(|p: (int, Seq<char>)| (p.1, source_at(req.uris@, p.0)));
            let before = av.subrange(0, k as int).map_values(|p: (int, Seq<char>)| (p.1, source_at(req.uris@, p.0)));
            assert forall|j: int| 0 <= j < lhs.len() implies lhs[j] == rhs[j] by {
                if j < k {
                    assert(out@[j] == prev[j]);
                    assert(lhs[j] == before[j]);
                }
            }
            assert(lhs =~= rhs);
        }
        k = k + 1;
    }
    assert(av.subrange(0, k as int) =~= av);
    out
}

} // verus!
