use silly::json::Json;
use silly::rpc::{inject_token, qualified_method};
use silly::text::{to_decimal, text_eq, has_prefix};
use silly::worker::{Aria2JsonRpcResp, Aria2Worker, Outgoing, Routed, RECONNECT_DELAY_MS};

fn s(x: &str) -> Json {
    Json::Str(x.to_string())
}

fn arr(items: Vec<Json>) -> Json {
    Json::Arr(items)
}

fn obj(fields: Vec<(&str, Json)>) -> Json {
    Json::Obj(fields.into_iter().map(|(k, v)| (k.to_string(), v)).collect())
}

fn connected_worker(secret: Option<&str>) -> Aria2Worker<u32> {
    let mut w: Aria2Worker<u32> = Aria2Worker::new("ws://127.0.0.1:6800/jsonrpc".to_string(), secret.map(|x| x.to_string()));
    w.begin_connect();
    w.connected();
    w
}

fn send(w: &mut Aria2Worker<u32>, method: &str, params: Vec<Json>, slot: u32) -> silly::worker::Aria2JsonRpcReq {
    match w.dispatch(method, params, slot) {
        Outgoing::Send(req) => req,
        Outgoing::Abort(_) => panic!("call aborted while connected"),
    }
}

fn response(id: &str, result: Json) -> Aria2JsonRpcResp {
    Aria2JsonRpcResp { id: Some(id.to_string()), method: None, params: None, result: Some(result), error: None }
}

#[test]
fn ids_are_decimal_in_submission_order() {
    let mut w = connected_worker(None);
    let ids: Vec<String> = (0..12u32).map(|k| send(&mut w, "getVersion", vec![], k).id).collect();
    let expected: Vec<String> = (1..=12).map(|n: u32| n.to_string()).collect();
    assert_eq!(ids, expected);
}

#[test]
fn responses_in_reverse_order_reach_their_callers() {
    let mut w = connected_worker(None);
    let ids: Vec<String> = (0..4u32).map(|k| send(&mut w, "tellStatus", vec![s("g")], 100 + k).id).collect();
    for (k, id) in ids.iter().enumerate().rev() {
        match w.route(response(id, Json::Int(k as i64))) {
            Routed::Reply(slot, v) => {
                assert_eq!(slot, 100 + k as u32);
                assert_eq!(v, Json::Int(k as i64));
            },
            _ => panic!("answer not routed to its caller"),
        }
    }
    assert_eq!(w.pending_len(), 0);
}

#[test]
fn token_goes_first_for_aria2_methods() {
    let mut w = connected_worker(Some("s"));
    let req = send(&mut w, "getVersion", vec![], 1);
    assert_eq!(req.method, "aria2.getVersion");
    assert_eq!(req.params, vec![s("token:s")]);
    assert_eq!(req.jsonrpc, "2.0");
}

#[test]
fn system_methods_carry_no_token() {
    let mut w = connected_worker(Some("s"));
    let req = send(&mut w, "system.listMethods", vec![], 1);
    assert_eq!(req.method, "system.listMethods");
    assert_eq!(req.params, vec![]);
}

#[test]
fn multicall_token_goes_into_aria2_sub_calls_only() {
    let mut w = connected_worker(Some("s"));
    let calls = arr(vec![
        obj(vec![("methodName", s("aria2.addUri")), ("params", arr(vec![arr(vec![s("u")])]))]),
        obj(vec![("methodName", s("system.listMethods")), ("params", arr(vec![]))]),
    ]);
    let req = send(&mut w, "system.multicall", vec![calls], 1);
    assert_eq!(req.method, "system.multicall");
    let expected = arr(vec![
        obj(vec![("methodName", s("aria2.addUri")), ("params", arr(vec![s("token:s"), arr(vec![s("u")])]))]),
        obj(vec![("methodName", s("system.listMethods")), ("params", arr(vec![]))]),
    ]);
    assert_eq!(req.params, vec![expected]);
}

#[test]
fn no_secret_leaves_params_alone() {
    let params = inject_token("getVersion", vec![s("x")], &None);
    assert_eq!(params, vec![s("x")]);
    assert_eq!(qualified_method("tellStatus"), "aria2.tellStatus");
    assert_eq!(qualified_method("system.multicall"), "system.multicall");
}

#[test]
fn sub_call_without_method_name_gets_token() {
    let calls = arr(vec![obj(vec![("params", arr(vec![s("g")]))])]);
    let params = inject_token("system.multicall", vec![calls], &Some("k".to_string()));
    assert_eq!(params, vec![arr(vec![obj(vec![("params", arr(vec![s("token:k"), s("g")]))])])]);
}

#[test]
fn disconnect_fails_pending_and_new_calls_until_reconnect() {
    let mut w = connected_worker(None);
    send(&mut w, "getVersion", vec![], 7);
    send(&mut w, "getVersion", vec![], 8);
    let aborted = w.disconnected();
    assert_eq!(aborted, vec![7, 8]);
    assert!(!w.alive());
    match w.dispatch("getVersion", vec![], 9) {
        Outgoing::Abort(slot) => assert_eq!(slot, 9),
        Outgoing::Send(_) => panic!("call sent while disconnected"),
    }
    w.begin_connect();
    w.connected();
    let req = send(&mut w, "getVersion", vec![], 10);
    assert_eq!(req.id, "3");
}

#[test]
fn failed_connects_keep_daemon_down_and_wait_ten_seconds() {
    let mut w: Aria2Worker<u32> = Aria2Worker::new("ws://x".to_string(), None);
    for _ in 0..3 {
        w.begin_connect();
        assert!(!w.alive());
        assert_eq!(w.connect_failed(), 10_000);
        assert!(!w.alive());
    }
    assert!(RECONNECT_DELAY_MS >= 10_000);
    w.begin_connect();
    w.connected();
    assert!(w.alive());
}

#[test]
fn error_answer_and_empty_answer_and_unknown_id() {
    let mut w = connected_worker(None);
    let a = send(&mut w, "pause", vec![s("g")], 1).id;
    let b = send(&mut w, "pause", vec![s("g")], 2).id;
    let err = obj(vec![("code", Json::Int(1)), ("message", s("not found"))]);
    let frame = Aria2JsonRpcResp { id: Some(a), method: None, params: None, result: None, error: Some(err) };
    assert!(matches!(w.route(frame), Routed::Failure(1, _)));
    let frame = Aria2JsonRpcResp { id: Some(b), method: None, params: None, result: None, error: None };
    assert!(matches!(w.route(frame), Routed::Unanswered(2)));
    assert!(matches!(w.route(response("99", Json::Null)), Routed::Ignored));
}

#[test]
fn notifications_go_to_the_bus() {
    let mut w = connected_worker(None);
    let frame = Aria2JsonRpcResp {
        id: None,
        method: Some("aria2.onDownloadStart".to_string()),
        params: Some(vec![obj(vec![("gid", s("abc"))])]),
        result: None,
        error: None,
    };
    assert!(matches!(w.route(frame), Routed::Event(_)));
    let empty = Aria2JsonRpcResp { id: None, method: None, params: None, result: None, error: None };
    assert!(matches!(w.route(empty), Routed::Ignored));
}

#[test]
fn frames_decode_like_envelopes() {
    let frame = obj(vec![("id", s("5")), ("jsonrpc", s("2.0")), ("result", s("OK"))]);
    let e = Aria2JsonRpcResp::from_json(&frame).unwrap();
    assert_eq!(e.id, Some("5".to_string()));
    assert_eq!(e.result, Some(s("OK")));
    assert_eq!(e.error, None);
    let bad = obj(vec![("id", Json::Int(5))]);
    assert!(Aria2JsonRpcResp::from_json(&bad).is_none());
    assert!(Aria2JsonRpcResp::from_json(&s("x")).is_none());
    let null_result = obj(vec![("id", s("1")), ("result", Json::Null)]);
    assert_eq!(Aria2JsonRpcResp::from_json(&null_result).unwrap().result, None);
}

#[test]
fn decimal_and_prefix_helpers() {
    assert_eq!(to_decimal(0), "0");
    assert_eq!(to_decimal(1234567890), "1234567890");
    assert_eq!(to_decimal(u64::MAX), u64::MAX.to_string());
    assert!(text_eq("abc", "abc"));
    assert!(!text_eq("abc", "abd"));
    assert!(has_prefix("system.multicall", "system."));
    assert!(!has_prefix("sys", "system."));
}
