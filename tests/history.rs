use silly::extract::{Extraction, blank, parse_i64};
use silly::json::Json;
use silly::model::{Aria2Res, DdlWsMessage, GidStatus, GlobalStat, ItemMetaData};
use silly::projector::{
    chunks, event_gid, sync_decision, tell_status_batch, DeleteHistoryRequest, HistoryService, History, PaginationQuery,
    SyncAction, SYNC_CHUNK,
};
use silly::store::{total_pages, HistoryStore};
use silly::worker::Aria2JsonRpcResp;

fn s(x: &str) -> Json {
    Json::Str(x.to_string())
}

fn arr(items: Vec<Json>) -> Json {
    Json::Arr(items)
}

fn obj(fields: Vec<(&str, Json)>) -> Json {
    Json::Obj(fields.into_iter().map(|(k, v)| (k.to_string(), v)).collect())
}

fn file(path: &str, uris: &[&str]) -> Json {
    obj(vec![
        ("index", s("1")),
        ("path", s(path)),
        ("length", s("10")),
        ("completedLength", s("5")),
        ("selected", s("true")),
        ("uris", arr(uris.iter().map(|u| obj(vec![("uri", s(u)), ("status", s("used"))])).collect())),
    ])
}

fn status_obj(gid: &str, status: &str, files: Vec<Json>, bittorrent: Option<Json>) -> Json {
    let mut fields = vec![
        ("gid", s(gid)),
        ("status", s(status)),
        ("dir", s("/downloads")),
        ("downloadSpeed", s("0")),
        ("uploadSpeed", s("0")),
        ("totalLength", s("100")),
        ("completedLength", s("40")),
        ("uploadLength", s("3")),
        ("files", arr(files)),
    ];
    if let Some(bt) = bittorrent {
        fields.push(("bittorrent", bt));
    }
    obj(fields)
}

fn name_of(j: &Json) -> String {
    Extraction::extract(j, "g1").name.unwrap()
}

fn row(gid: &str, user_id: i64, status: GidStatus, name: &str) -> ItemMetaData {
    let mut m = Extraction::skeleton(gid);
    m.status = status;
    m.name = Some(name.to_string());
    m.user_id = user_id;
    m
}

#[test]
fn name_from_torrent_info_first() {
    let bt = obj(vec![("info", obj(vec![("name", s("Ubuntu ISO"))]))]);
    let j = status_obj("g1", "active", vec![file("/d/file.bin", &["http://h/x.bin"])], Some(bt));
    assert_eq!(name_of(&j), "Ubuntu ISO");
}

#[test]
fn name_from_first_file_basename() {
    let bt = obj(vec![("info", obj(vec![("name", s(""))]))]);
    let j = status_obj("g1", "active", vec![file("/d/sub/file.bin", &["http://h/x.bin"])], Some(bt));
    assert_eq!(name_of(&j), "file.bin");
}

#[test]
fn name_from_magnet_dn() {
    let j = status_obj("g1", "active", vec![file("", &["magnet:?xt=urn:btih:abc&dn=My%20Show"])], None);
    assert_eq!(name_of(&j), "My Show");
}

#[test]
fn name_from_decoded_last_url_segment() {
    let j = status_obj("g1", "waiting", vec![file("", &["", "https://example.com/a/b/some%20file.zip"])], None);
    assert_eq!(name_of(&j), "some file.zip");
}

#[test]
fn name_falls_back_to_untitled() {
    let j = status_obj("g1", "waiting", vec![file("", &["https://example.com/"])], None);
    assert_eq!(name_of(&j), "<Untitled>");
    let none = status_obj("g1", "waiting", vec![], None);
    assert_eq!(name_of(&none), "<Untitled>");
}

#[test]
fn removed_maps_to_stopped_while_a_file_exists() {
    let j = status_obj("g1", "removed", vec![file("/", &[]), file("/no/such/path/for/this/test", &[])], None);
    assert_eq!(Extraction::extract(&j, "g1").status, GidStatus::Stopped);
    let k = status_obj("g1", "removed", vec![file("/no/such/a", &[]), file("/no/such/b", &[])], None);
    assert_eq!(Extraction::extract(&k, "g1").status, GidStatus::Removed);
}

#[test]
fn status_strings_map_to_states() {
    assert_eq!(Extraction::status_of("active", false), GidStatus::Active);
    assert_eq!(Extraction::status_of("waiting", true), GidStatus::Waiting);
    assert_eq!(Extraction::status_of("paused", false), GidStatus::Paused);
    assert_eq!(Extraction::status_of("error", false), GidStatus::Error);
    assert_eq!(Extraction::status_of("complete", false), GidStatus::Complete);
    assert_eq!(Extraction::status_of("removed", true), GidStatus::Stopped);
    assert_eq!(Extraction::status_of("removed", false), GidStatus::Removed);
    assert_eq!(Extraction::status_of("other", false), GidStatus::Stopped);
}

#[test]
fn extraction_fills_the_row() {
    let mut j = status_obj("g1", "error", vec![file("/d/a", &["", "http://h/a"]), file("", &[]), file("/d/b", &[])], None);
    if let Json::Obj(fields) = &mut j {
        fields.push(("errorCode".to_string(), s("12")));
        fields.push(("errorMessage".to_string(), s("boom")));
        fields.push(("infoHash".to_string(), s("abcd")));
    }
    let m = Extraction::extract(&j, "g1");
    assert_eq!(m.gid, "g1");
    assert_eq!(m.files, Some("[\"/d/a\",\"/d/b\"]".to_string()));
    assert_eq!(m.source_uri, Some("http://h/a".to_string()));
    assert_eq!(m.error_code, Some(12));
    assert_eq!(m.error_message, Some("boom".to_string()));
    assert_eq!(m.info_hash, Some("abcd".to_string()));
    assert_eq!(m.total_length, Some("100".to_string()));
    assert_eq!(m.completed_length, Some("40".to_string()));
    assert_eq!(m.uploaded_length, Some("3".to_string()));
    assert_eq!(m.dir, Some("/downloads".to_string()));
    assert_eq!(m.is_torrent, Some(false));
    assert_eq!(m.status, GidStatus::Error);
}

#[test]
fn undecodable_status_gives_skeleton() {
    let m = Extraction::extract(&obj(vec![]), "g9");
    assert_eq!(m.gid, "g9");
    assert_eq!(m.name, Some("<Untitled>".to_string()));
    assert_eq!(m.status, GidStatus::Waiting);
    assert_eq!(m.is_torrent, Some(false));
    assert_eq!(m.total_length, Some("0".to_string()));
    assert_eq!(m.dir, None);
    let bad_mode = status_obj("g1", "active", vec![], Some(obj(vec![("mode", s("triple"))])));
    assert_eq!(Extraction::extract(&bad_mode, "g1").status, GidStatus::Waiting);
}

#[test]
fn integer_parsing_follows_str_parse() {
    assert_eq!(parse_i64("0"), Some(0));
    assert_eq!(parse_i64("+7"), Some(7));
    assert_eq!(parse_i64("-42"), Some(-42));
    assert_eq!(parse_i64("9223372036854775807"), Some(i64::MAX));
    assert_eq!(parse_i64("-9223372036854775808"), Some(i64::MIN));
    assert_eq!(parse_i64("9223372036854775808"), None);
    assert_eq!(parse_i64(""), None);
    assert_eq!(parse_i64("-"), None);
    assert_eq!(parse_i64("1x"), None);
    assert!(blank(" \t\u{3000}"));
    assert!(!blank(" a "));
}

#[test]
fn untitled_report_keeps_known_name() {
    let mut store = HistoryStore::new();
    assert!(store.insert_initial(1, &row("g1", 1, GidStatus::Waiting, "foo"), 100));
    let incoming = row("g1", 0, GidStatus::Active, "<Untitled>");
    let r = store.upsert_from_daemon(&incoming, 200);
    assert_eq!(r, Some((1, Some(100), None)));
    let stored = store.get("g1").unwrap();
    assert_eq!(stored.name, Some("foo".to_string()));
    assert_eq!(stored.status, GidStatus::Active);
    assert_eq!(stored.updated_at, Some(200));
}

#[test]
fn upsert_sets_completion_once_and_ignores_unknown() {
    let mut store = HistoryStore::new();
    store.insert_initial(1, &row("g1", 1, GidStatus::Active, "a"), 100);
    let done = row("g1", 0, GidStatus::Complete, "b");
    assert_eq!(store.upsert_from_daemon(&done, 300), Some((1, Some(100), Some(300))));
    assert_eq!(store.upsert_from_daemon(&done, 400), Some((1, Some(100), Some(300))));
    assert_eq!(store.get("g1").unwrap().name, Some("b".to_string()));
    let paused = row("g1", 0, GidStatus::Paused, "b");
    assert_eq!(store.upsert_from_daemon(&paused, 500), Some((1, Some(100), None)));
    assert_eq!(store.upsert_from_daemon(&row("zz", 0, GidStatus::Active, "x"), 1), None);
}

#[test]
fn initial_insert_is_idempotent() {
    let mut store = HistoryStore::new();
    assert!(store.insert_initial(3, &row("g1", 0, GidStatus::Waiting, "a"), 10));
    assert!(!store.insert_initial(3, &row("g1", 0, GidStatus::Active, "b"), 20));
    assert_eq!(store.len(), 1);
    let r = store.get("g1").unwrap();
    assert_eq!(r.created_at, Some(10));
    assert_eq!(r.name, Some("a".to_string()));
    assert_eq!(r.user_id, 3);
}

#[test]
fn delete_needs_the_owner() {
    let mut store = HistoryStore::new();
    store.insert_initial(2, &row("g1", 0, GidStatus::Active, "a"), 10);
    assert_eq!(store.delete_for_user(1, "g1"), 0);
    assert_eq!(store.len(), 1);
    assert_eq!(store.delete_for_user(2, "g1"), 1);
    assert_eq!(store.len(), 0);
    assert_eq!(store.delete_for_user(2, "g1"), 0);
}

#[test]
fn pagination_of_forty_five_rows() {
    let mut store = HistoryStore::new();
    for k in 0..45i64 {
        store.insert_initial(7, &row(&format!("g{}", k), 0, GidStatus::Active, "n"), 1000 + k);
    }
    store.insert_initial(8, &row("other", 0, GidStatus::Active, "n"), 5);
    let (rows, total) = store.list_for_user(7, 3, 20);
    assert_eq!(rows.len(), 5);
    assert_eq!(total, 45);
    assert_eq!(total_pages(total, 20), 3);
    assert_eq!(rows[0].gid, "g4");
    assert_eq!(rows[4].gid, "g0");
    let (first, _) = store.list_for_user(7, 1, 20);
    assert_eq!(first[0].gid, "g44");
    let (none, _) = store.list_for_user(7, 4, 20);
    assert!(none.is_empty());
    assert_eq!(total_pages(0, 20), 0);
    assert_eq!(total_pages(41, 20), 3);
    let q = PaginationQuery { page: None, limit: None };
    assert_eq!((q.page_or_default(), q.limit_or_default()), (1, 20));
}

#[test]
fn rows_stay_ordered_by_creation() {
    let mut store = HistoryStore::new();
    store.insert_initial(1, &row("late", 0, GidStatus::Active, "n"), 50);
    store.insert_initial(1, &row("early", 0, GidStatus::Active, "n"), 10);
    let (rows, _) = store.list_for_user(1, 1, 10);
    assert_eq!(rows[0].gid, "late");
    assert_eq!(rows[1].gid, "early");
}

#[test]
fn active_and_reconcilable_selections() {
    let mut store = HistoryStore::new();
    store.insert_initial(1, &row("a", 0, GidStatus::Active, "n"), 1);
    store.insert_initial(2, &row("b", 0, GidStatus::Removed, "n"), 2);
    store.insert_initial(3, &row("c", 0, GidStatus::Paused, "n"), 3);
    assert_eq!(store.select_active_gids(), vec![("a".to_string(), 1)]);
    assert_eq!(store.select_reconcilable_gids(), vec!["a".to_string(), "c".to_string()]);
    assert_eq!(store.update_progress("c", Some("[]".to_string()), "9".to_string(), "10".to_string(), "1".to_string()), 1);
    let c = store.get("c").unwrap();
    assert_eq!(c.completed_length, Some("9".to_string()));
    assert_eq!(c.status, GidStatus::Paused);
    assert_eq!(store.update_progress("zz", None, "1".to_string(), "1".to_string(), "1".to_string()), 0);
}

fn global() -> GlobalStat {
    GlobalStat {
        download_speed: "10".to_string(),
        upload_speed: "0".to_string(),
        num_active: "2".to_string(),
        num_waiting: "0".to_string(),
        num_stopped: "0".to_string(),
        num_stopped_total: "0".to_string(),
    }
}

#[test]
fn tick_sends_each_user_only_their_tasks() {
    let active = vec![("ga".to_string(), 1), ("gb".to_string(), 2)];
    let response = arr(vec![
        arr(vec![status_obj("ga", "active", vec![], None)]),
        arr(vec![status_obj("gb", "active", vec![], None)]),
    ]);
    let (msgs, writes) = HistoryService::tick(&global(), &active, &response);
    assert_eq!(msgs.len(), 2);
    assert_eq!(writes.len(), 2);
    let mut seen = Vec::new();
    for m in &msgs {
        match m {
            DdlWsMessage::Tick { user_id, global, tasks } => {
                assert_eq!(tasks.len(), 1);
                assert_eq!(global.num_active, "2");
                let want = if *user_id == 1 { "ga" } else { "gb" };
                assert_eq!(tasks[0].gid, want);
                seen.push(*user_id);
            },
            DdlWsMessage::Event { .. } => panic!("tick produced an event"),
        }
    }
    seen.sort();
    assert_eq!(seen, vec![1, 2]);
    assert_eq!(writes[0].gid, "ga");
    assert_eq!(writes[0].completed, "40");
}

#[test]
fn tick_groups_and_skips_bad_answers() {
    let active = vec![("a".to_string(), 1), ("b".to_string(), 1), ("c".to_string(), 2)];
    let response = arr(vec![
        arr(vec![status_obj("a", "active", vec![], None)]),
        arr(vec![status_obj("b", "active", vec![], None)]),
        obj(vec![("code", Json::Int(1))]),
    ]);
    let (msgs, writes) = HistoryService::tick(&global(), &active, &response);
    assert_eq!(msgs.len(), 1);
    assert_eq!(writes.len(), 2);
    match &msgs[0] {
        DdlWsMessage::Tick { user_id, tasks, .. } => {
            assert_eq!(*user_id, 1);
            let gids: Vec<&str> = tasks.iter().map(|t: &Aria2Res| t.gid.as_str()).collect();
            assert_eq!(gids, vec!["a", "b"]);
        },
        _ => panic!("expected a tick"),
    }
    let (none, _) = HistoryService::tick(&global(), &active, &s("nope"));
    assert!(none.is_empty());
}

#[test]
fn sync_marks_lost_sessions_and_refreshes_known_ones() {
    let mut store = HistoryStore::new();
    store.insert_initial(1, &row("a", 0, GidStatus::Active, "old"), 1);
    store.insert_initial(2, &row("b", 0, GidStatus::Active, "n"), 2);
    store.insert_initial(3, &row("c", 0, GidStatus::Active, "n"), 3);
    let gids = store.select_reconcilable_gids();
    let response = arr(vec![
        arr(vec![status_obj("a", "complete", vec![file("/d/new.bin", &[])], None)]),
        obj(vec![("error", obj(vec![("code", Json::Int(1)), ("message", s("gone"))]))]),
        obj(vec![("error", obj(vec![("code", Json::Int(7))]))]),
    ]);
    let events = HistoryService::sync_chunk(&mut store, &gids, &response, 50);
    assert_eq!(events.len(), 1);
    let a = store.get("a").unwrap();
    assert_eq!(a.status, GidStatus::Complete);
    assert_eq!(a.completed_at, Some(50));
    assert_eq!(a.name, Some("new.bin".to_string()));
    let b = store.get("b").unwrap();
    assert_eq!(b.status, GidStatus::Error);
    assert_eq!(b.error_code, Some(1));
    assert_eq!(b.error_message, Some("Session lost".to_string()));
    assert_eq!(store.get("c").unwrap().status, GidStatus::Active);
    assert!(matches!(sync_decision(&arr(vec![]), "x"), SyncAction::Keep));
}

#[test]
fn refresh_publishes_the_reported_row() {
    let mut store = HistoryStore::new();
    store.insert_initial(4, &row("g1", 0, GidStatus::Waiting, "keep"), 1);
    let msg = HistoryService::refresh_gid(&mut store, "g1", &status_obj("g1", "paused", vec![], None), 9);
    match msg {
        Some(DdlWsMessage::Event { user_id, data }) => {
            assert_eq!(user_id, 4);
            assert_eq!(data.user_id, 4);
            assert_eq!(data.created_at, Some(1));
            assert_eq!(data.completed_at, None);
            assert_eq!(data.name, Some("<Untitled>".to_string()));
            assert_eq!(data.status, GidStatus::Paused);
        },
        _ => panic!("expected an event"),
    }
    assert_eq!(store.get("g1").unwrap().name, Some("keep".to_string()));
    assert!(HistoryService::refresh_gid(&mut store, "nope", &obj(vec![]), 9).is_none());
}

#[test]
fn uri_history_records_the_source() {
    let mut store = HistoryStore::new();
    let src = "http://h/file.iso".to_string();
    assert!(History::uri_his(&mut store, &obj(vec![]), "g1", 5, &src, 77));
    let r = store.get("g1").unwrap();
    assert_eq!(r.source_uri, Some(src));
    assert_eq!(r.user_id, 5);
    assert_eq!(r.created_at, Some(77));
    assert!(History::torrent_his(&mut store, &obj(vec![]), "g2", 5, 78));
}

#[test]
fn event_gid_only_for_aria2_on_notifications() {
    let mut msg = Aria2JsonRpcResp {
        id: None,
        method: Some("aria2.onDownloadComplete".to_string()),
        params: Some(vec![obj(vec![("gid", s("abc"))])]),
        result: None,
        error: None,
    };
    assert_eq!(event_gid(&msg), Some("abc".to_string()));
    msg.method = Some("system.other".to_string());
    assert_eq!(event_gid(&msg), None);
    msg.method = Some("aria2.onBtDownloadComplete".to_string());
    msg.params = Some(vec![]);
    assert_eq!(event_gid(&msg), None);
}

#[test]
fn startup_chunks_of_one_hundred() {
    let gids: Vec<String> = (0..250).map(|k| format!("g{}", k)).collect();
    let parts = chunks(&gids, SYNC_CHUNK);
    let sizes: Vec<usize> = parts.iter().map(|p| p.len()).collect();
    assert_eq!(sizes, vec![100, 100, 50]);
    assert_eq!(parts[2][0], "g200");
    assert!(chunks(&vec![], SYNC_CHUNK).is_empty());
    let batch = tell_status_batch(&vec!["x".to_string()]);
    assert_eq!(batch, vec![arr(vec![obj(vec![("methodName", s("aria2.tellStatus")), ("params", arr(vec![s("x")]))])])]);
}

#[test]
fn delete_history_removes_only_owned_rows() {
    let mut store = HistoryStore::new();
    let mut mine = row("g1", 0, GidStatus::Complete, "movie.mkv");
    mine.dir = Some("/downloads".to_string());
    store.insert_initial(1, &mine, 1);
    store.insert_initial(2, &row("g2", 0, GidStatus::Complete, "theirs"), 2);
    store.insert_initial(1, &row("g3", 0, GidStatus::Complete, "nodir"), 3);
    let req = DeleteHistoryRequest {
        gids: vec!["g1".to_string(), "g2".to_string(), "g3".to_string(), "g1".to_string()],
        delete_file: true,
    };
    let removals = HistoryService::delete_history(&mut store, 1, &req);
    assert_eq!(removals.len(), 2);
    assert_eq!(removals[0].gid, "g1");
    assert_eq!(
        removals[0].files,
        Some(("/downloads/movie.mkv".to_string(), "/downloads/movie.mkv.aria2".to_string()))
    );
    assert_eq!(removals[1].gid, "g3");
    assert_eq!(removals[1].files, None);
    assert_eq!(store.len(), 1);
    assert!(store.get("g2").is_some());
    let keep_files = DeleteHistoryRequest { gids: vec!["g2".to_string()], delete_file: false };
    let r = HistoryService::delete_history(&mut store, 2, &keep_files);
    assert_eq!(r.len(), 1);
    assert_eq!(r[0].files, None);
    assert_eq!(store.len(), 0);
}

#[test]
fn live_messages_reach_only_their_owner() {
    let tick = DdlWsMessage::Tick { user_id: 1, global: global(), tasks: vec![] };
    assert!(tick.is_for(1));
    assert!(!tick.is_for(2));
    let event = DdlWsMessage::Event { user_id: 2, data: row("g", 2, GidStatus::Active, "n") };
    assert!(event.is_for(2));
    assert!(!event.is_for(1));
}

#[test]
fn tick_without_active_downloads_writes_nothing() {
    let (msgs, writes) = HistoryService::tick(&global(), &vec![], &arr(vec![]));
    assert!(msgs.is_empty());
    assert!(writes.is_empty());
}

#[test]
fn files_column_escapes_like_json() {
    let j = status_obj("g1", "active", vec![file("a\"b\\c\nd\u{1}", &[]), file("é", &[])], None);
    let m = Extraction::extract(&j, "g1");
    assert_eq!(m.files, Some("[\"a\\\"b\\\\c\\nd\\u0001\",\"é\"]".to_string()));
    let none = status_obj("g1", "active", vec![file("", &[])], None);
    assert_eq!(Extraction::extract(&none, "g1").files, Some("[]".to_string()));
}

#[test]
fn zero_limit_gives_an_empty_page_and_inserts_report_added() {
    let mut store = HistoryStore::new();
    assert!(History::torrent_his(&mut store, &obj(vec![]), "g1", 1, 5));
    assert!(!History::torrent_his(&mut store, &obj(vec![]), "g1", 1, 6));
    let (rows, total) = store.list_for_user(1, 1, 0);
    assert!(rows.is_empty());
    assert_eq!(total, 1);
}
