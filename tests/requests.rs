use silly::auth::Role;
use silly::json::Json;
use silly::proxy::{
    add_torrent_params, add_torrents_params, add_uris_params, added_gids, details_params, gid_params, global_option_params,
    move_params, uri_gids, AddTorrentReq, AddUriReq, BatchAddTorrentRequest, GlobalOptionReq, MoveReq, TorrentItem,
};
use silly::status::{Args, SysStatus};

fn s(x: &str) -> Json {
    Json::Str(x.to_string())
}

fn arr(items: Vec<Json>) -> Json {
    Json::Arr(items)
}

fn obj(fields: Vec<(&str, Json)>) -> Json {
    Json::Obj(fields.into_iter().map(|(k, v)| (k.to_string(), v)).collect())
}

fn call(name: &str, params: Vec<Json>) -> Json {
    obj(vec![("methodName", s(name)), ("params", arr(params))])
}

#[test]
fn add_uris_makes_one_add_uri_per_uri() {
    let req = AddUriReq {
        uris: vec!["http://a/1".to_string(), "http://b/2".to_string()],
        options: Some(obj(vec![("dir", s("/x"))])),
    };
    let params = add_uris_params(&req);
    let opts = obj(vec![("dir", s("/x"))]);
    assert_eq!(params, vec![arr(vec![
        call("aria2.addUri", vec![arr(vec![s("http://a/1")]), obj(vec![("dir", s("/x"))])]),
        call("aria2.addUri", vec![arr(vec![s("http://b/2")]), opts]),
    ])]);
    let bare = AddUriReq { uris: vec!["u".to_string()], options: None };
    assert_eq!(add_uris_params(&bare), vec![arr(vec![call("aria2.addUri", vec![arr(vec![s("u")]), obj(vec![])])])]);
}

#[test]
fn add_torrents_needs_at_least_one() {
    assert!(add_torrents_params(&BatchAddTorrentRequest { torrents: vec![] }).is_none());
    let req = BatchAddTorrentRequest {
        torrents: vec![TorrentItem { torrent: "QUJD".to_string(), options: None }],
    };
    assert_eq!(
        add_torrents_params(&req),
        Some(vec![arr(vec![call("aria2.addTorrent", vec![s("QUJD"), arr(vec![]), obj(vec![])])])])
    );
}

#[test]
fn added_gids_keep_their_index() {
    let response = arr(vec![
        arr(vec![s("g1")]),
        obj(vec![("code", Json::Int(1))]),
        arr(vec![s("g3")]),
        arr(vec![]),
    ]);
    assert_eq!(added_gids(&response), vec![(0, "g1".to_string()), (2, "g3".to_string())]);
    assert!(added_gids(&s("x")).is_empty());
}

#[test]
fn single_download_calls() {
    let g = "2089b05ecca3d829".to_string();
    assert_eq!(gid_params(&g), vec![s(&g)]);
    assert_eq!(details_params(&g), vec![arr(vec![
        call("aria2.getFiles", vec![s(&g)]),
        call("aria2.getPeers", vec![s(&g)]),
        call("aria2.getServers", vec![s(&g)]),
    ])]);
    let opts = GlobalOptionReq { options: obj(vec![("max-concurrent-downloads", s("3"))]) };
    assert_eq!(global_option_params(&opts), vec![obj(vec![("max-concurrent-downloads", s("3"))])]);
}

#[test]
fn move_accepts_only_known_modes() {
    let ok = MoveReq { gid: "g".to_string(), pos: -1, how: "POS_CUR".to_string() };
    assert_eq!(move_params(&ok), Some(vec![s("g"), Json::Int(-1), s("POS_CUR")]));
    let bad = MoveReq { gid: "g".to_string(), pos: 0, how: "POS_TOP".to_string() };
    assert!(move_params(&bad).is_none());
}

#[test]
fn roles_by_name() {
    assert_eq!(Role::try_from("admin"), Ok(Role::Admin));
    assert_eq!(Role::try_from("user"), Ok(Role::User));
    assert_eq!(Role::try_from("root"), Err(()));
    assert_eq!(Role::Admin.as_str(), "admin");
    assert_eq!(Role::User.as_str(), "user");
}

#[test]
fn endpoint_and_status() {
    let args = Args {
        port: 8080,
        host: "0.0.0.0".to_string(),
        aria2_host: "ws://127.0.0.1".to_string(),
        aria2_port: "6800".to_string(),
        aria2_secret: None,
        data_dir: "silly".to_string(),
        verbose: false,
        ssl: None,
        jwt_secret: None,
    };
    assert_eq!(args.aria2_url(), "ws://127.0.0.1:6800/jsonrpc");
    let st = SysStatus { version: "0.1.0".to_string(), admin_exists: true, aria2_alive: false }.with_alive(true);
    assert!(st.aria2_alive && st.admin_exists);
}

#[test]
fn returned_gids_pair_with_their_uris() {
    let req = AddUriReq { uris: vec!["http://a/1".to_string(), "http://b/2".to_string()], options: None };
    let response = arr(vec![arr(vec![s("g1")]), obj(vec![("code", Json::Int(1))]), arr(vec![s("g3")])]);
    assert_eq!(
        uri_gids(&req, &response),
        vec![("g1".to_string(), "http://a/1".to_string()), ("g3".to_string(), String::new())]
    );
}

#[test]
fn single_torrent_has_no_web_seeds() {
    let req = AddTorrentReq { torrent: "QUJD".to_string(), options: Some(obj(vec![("dir", s("/t"))])) };
    assert_eq!(add_torrent_params(&req), vec![s("QUJD"), arr(vec![]), obj(vec![("dir", s("/t"))])]);
}
