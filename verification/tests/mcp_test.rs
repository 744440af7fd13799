//! The tools of the agent, and the protocol around them.

use rproxy::flow::{Flow, FlowAction};
use rproxy::events::ProxyEvent;
use rproxy::mcp::{
    body_of, call_tool, flow_summary, handle_line, is_presentable, to_curl, tools_list, trunc,
    LineOutcome, Store,
};
use rproxy::model::{Clock, ConnectionId, Exchange, ExchangeId, HttpRequest, Protocol};
use rproxy::pipeline::Pipeline;
use rproxy::tools::Tool;
use serde_json::Value;

fn at(n: u64) -> Clock {
    Clock { monotonic: n, wall: n }
}

fn obj(members: Vec<(&str, Value)>) -> Value {
    members.into_iter().map(|(k, v)| (k.to_string(), v)).collect()
}

fn none() -> Value {
    Value::Object(serde_json::Map::new())
}

fn fake_exchange() -> Exchange {
    let mut ex = Exchange::new(ExchangeId(1), ConnectionId(1), Protocol::Http1, at(0));
    ex.request = Some(HttpRequest {
        method: "POST".into(),
        uri: "http://api.test/login".into(),
        headers: vec![("content-type".into(), "application/json".into())],
        is_connect: false,
    });
    ex.request_body = Some(bytes::Bytes::from_static(br#"{"user":"admin"}"#));
    ex.response_status = Some(200);
    ex.response_body = Some(bytes::Bytes::from_static(br#"{"token":"abc"}"#));
    ex
}

fn text_of(v: &Value) -> String {
    assert_eq!(v["content"][0]["type"], "text");
    v["content"][0]["text"].as_str().unwrap().to_string()
}

#[test]
fn tools_work() {
    let mut store = Store::new();
    store.session.push(fake_exchange());

    let status = call_tool(&mut store, "get_status", none());
    assert!(status["content"][0]["text"].as_str().unwrap().contains("flows"));

    let flows = call_tool(&mut store, "get_flows", obj(vec![("filter", "api.test".into())]));
    let text = flows["content"][0]["text"].as_str().unwrap();
    assert!(text.contains("api.test"));
    assert!(text.contains("\"total\": 1"));

    let nothing = call_tool(&mut store, "get_flows", obj(vec![("filter", "nomatch".into())]));
    assert!(nothing["content"][0]["text"].as_str().unwrap().contains("\"total\": 0"));

    let flow = call_tool(&mut store, "get_flow", obj(vec![("index", 0.into())]));
    let text = flow["content"][0]["text"].as_str().unwrap();
    assert!(text.contains("admin"));
    assert!(text.contains("abc"));

    let curl = call_tool(&mut store, "export_flow_curl", obj(vec![("index", 0.into())]));
    let text = curl["content"][0]["text"].as_str().unwrap();
    assert!(text.starts_with("curl -X POST"));
    assert!(text.contains("http://api.test/login"));

    call_tool(&mut store, "toggle_recording", none());
    assert!(!store.is_recording());

    call_tool(&mut store, "clear_session", none());
    assert!(store.session.is_empty());
}

#[test]
fn traffic_visible_via_mcp_tools() {
    let pipeline: Pipeline<Tool, Tool> = Pipeline::new();
    let mut store = Store::new();
    let (mut flow, _) =
        Flow::begin(ExchangeId(1), ConnectionId(1), "GET", "http://origin/mcp", Vec::new(), at(0));
    flow.set_request_body(Some(bytes::Bytes::new()));
    let step = flow.intercept(&pipeline, None, at(1));
    assert!(matches!(step.action, FlowAction::Forward { .. }));
    let body = Some(bytes::Bytes::from_static(b"mcp e2e body"));
    let step = flow.answer(200, Vec::new(), body, &pipeline, at(2));
    match step.event {
        Some(ProxyEvent::ExchangeCompleted(ex)) => store.record(ex),
        _ => panic!("no end"),
    }

    let flows = call_tool(&mut store, "get_flows", none());
    let text = flows["content"][0]["text"].as_str().unwrap();
    assert!(text.contains("http"));
    let flow = call_tool(&mut store, "get_flow", obj(vec![("index", 0.into())]));
    let text = flow["content"][0]["text"].as_str().unwrap();
    assert!(text.contains("mcp e2e body"));
    let curl = call_tool(&mut store, "export_flow_curl", obj(vec![("index", 0.into())]));
    assert!(curl["content"][0]["text"].as_str().unwrap().starts_with("curl -X GET"));
}

#[test]
fn status_in_full() {
    let mut store = Store::new();
    store.session.push(fake_exchange());
    let v = call_tool(&mut store, "get_status", none());
    assert_eq!(text_of(&v), "{\"flows\":1,\"recording\":true,\"version\":\"0.1.0\"}");
}

#[test]
fn answers_of_the_small_tools() {
    let mut store = Store::new();
    assert_eq!(text_of(&call_tool(&mut store, "toggle_recording", none())), "recording OFF");
    assert_eq!(text_of(&call_tool(&mut store, "toggle_recording", none())), "recording ON");
    assert!(store.is_recording());
    assert_eq!(text_of(&call_tool(&mut store, "clear_session", none())), "session cleared");
    assert_eq!(text_of(&call_tool(&mut store, "fly", none())), "unknown tool: fly");
    let v = call_tool(&mut store, "get_flow", obj(vec![("index", 3.into())]));
    assert_eq!(text_of(&v), "no flow at index 3");
    let v = call_tool(&mut store, "get_flow", none());
    assert_eq!(text_of(&v), "no flow at index 18446744073709551615");
    let v = call_tool(&mut store, "export_flow_curl", obj(vec![("index", (-1).into())]));
    assert_eq!(text_of(&v), "no flow at index 18446744073709551615");
}

#[test]
fn search_ignores_case_and_keeps_the_latest() {
    let mut store = Store::new();
    for i in 0..60u64 {
        let mut ex = fake_exchange();
        ex.id = ExchangeId(i);
        ex.request.as_mut().unwrap().uri = format!("http://Host{}/", i % 2);
        store.record(ex);
    }
    let read = |v: Value| -> Value { serde_json::from_str(&text_of(&v)).unwrap() };

    let all = read(call_tool(&mut store, "get_flows", none()));
    assert_eq!(all["total"], 60);
    assert_eq!(all["flows"].as_array().unwrap().len(), 50);
    assert_eq!(all["flows"][0]["index"], 10);
    assert_eq!(all["flows"][49]["index"], 59);

    let args = obj(vec![("filter", "hOST1".into()), ("limit", 2.into())]);
    let odd = read(call_tool(&mut store, "get_flows", args));
    assert_eq!(odd["total"], 30);
    assert_eq!(odd["flows"].as_array().unwrap().len(), 2);
    assert_eq!(odd["flows"][0]["index"], 57);
    assert_eq!(odd["flows"][1]["id"], 59);

    let by_method = read(call_tool(&mut store, "get_flows", obj(vec![("filter", "post".into())])));
    assert_eq!(by_method["total"], 60);
    let args = obj(vec![("limit", 0.into())]);
    let empty = read(call_tool(&mut store, "get_flows", args));
    assert_eq!(empty["total"], 60);
    assert_eq!(empty["flows"].as_array().unwrap().len(), 0);
}

#[test]
fn exchanges_without_a_request_are_found_by_no_filter() {
    let mut store = Store::new();
    let ex = Exchange::new(ExchangeId(4), ConnectionId(1), Protocol::Http1, at(0));
    store.record(ex);
    let v = call_tool(&mut store, "get_flows", obj(vec![("filter", "-".into())]));
    assert!(text_of(&v).contains("\"total\": 0"));
    let v = call_tool(&mut store, "get_flows", none());
    assert!(text_of(&v).contains("\"method\": \"-\""));
    let v = call_tool(&mut store, "export_flow_curl", obj(vec![("index", 0.into())]));
    assert_eq!(text_of(&v), "");
}

#[test]
fn summary_in_full() {
    let mut ex = fake_exchange();
    ex.fail("refused".to_string(), at(3_500_000));
    let expected = "{\"duration\":3,\"error\":\"refused\",\"id\":1,\"index\":7,\"method\":\"POST\",\
\"status\":200,\"url\":\"http://api.test/login\"}";
    assert_eq!(flow_summary(7, &ex).to_string(), expected);
}

#[test]
fn flow_in_full() {
    let mut store = Store::new();
    let mut ex = fake_exchange();
    ex.response_content_type = Some("text/plain".into());
    ex.response_headers = vec![("a".into(), "b".into())];
    store.record(ex);
    let v = call_tool(&mut store, "get_flow", obj(vec![("index", 0.into())]));
    let d: Value = serde_json::from_str(&text_of(&v)).unwrap();
    assert_eq!(d["request_headers"][0][0], "content-type");
    assert_eq!(d["request_headers"][0][1], "application/json");
    assert_eq!(d["request_body"], "{\"user\":\"admin\"}");
    assert_eq!(d["response_status"], 200);
    assert_eq!(d["response_headers"][0][1], "b");
    assert_eq!(d["response_content_type"], "text/plain");
    assert_eq!(d["response_body"], "{\"token\":\"abc\"}");
    assert_eq!(d["flow"]["index"], 0);
    assert!(d["error"].is_null());
    assert!(d["flow"]["duration"].is_null());
}

#[test]
fn command_in_full() {
    let mut ex = fake_exchange();
    ex.request.as_mut().unwrap().headers = vec![
        ("HOST".into(), "api.test".into()),
        ("X-Quote".into(), "say \"hi\"".into()),
        ("Content-Length".into(), "16".into()),
    ];
    let expected = "curl -X POST \\\n  -d \"{\\\"user\\\":\\\"admin\\\"}\" \\\n  \
-H \"X-Quote: say \\\"hi\\\"\" \\\n  \"http://api.test/login\"";
    assert_eq!(to_curl(&ex), expected);
    ex.request_body = Some(bytes::Bytes::new());
    ex.request.as_mut().unwrap().headers.clear();
    assert_eq!(to_curl(&ex), "curl -X POST \\\n  \"http://api.test/login\"");
}

#[test]
fn long_bodies_are_cut() {
    assert_eq!(trunc("short"), "short");
    let exact = "x".repeat(20_000);
    assert_eq!(trunc(&exact), exact);
    let long = format!("{exact}tail!");
    assert_eq!(trunc(&long), format!("{exact}\n…[truncated 5 chars]"));

    let mut ex = fake_exchange();
    ex.response_body = Some(bytes::Bytes::from(long.clone()));
    assert_eq!(body_of(&ex, true), format!("{exact}\n…[truncated 5 chars]"));
    assert_eq!(body_of(&ex, false), "{\"user\":\"admin\"}");
    ex.response_body_decoded = Some(bytes::Bytes::from_static(b"undone"));
    assert_eq!(body_of(&ex, true), "undone");
    ex.request_body = None;
    assert_eq!(body_of(&ex, false), "");
}

#[test]
fn bodies_that_cannot_be_cut_are_refused() {
    let mut store = Store::new();
    let mut ex = fake_exchange();
    // The character at the limit is two bytes long, and starts one byte before it.
    let text = format!("{}é tail", "x".repeat(19_999));
    ex.response_body = Some(bytes::Bytes::from(text));
    store.record(ex);
    let args = obj(vec![("index", 0.into())]);
    assert!(!is_presentable(&store, "get_flow", &args));
    assert!(is_presentable(&store, "get_flows", &args));
    assert!(is_presentable(&store, "get_flow", &obj(vec![("index", 1.into())])));
    let line = "{\"id\":1,\"method\":\"tools/call\",\"params\":{\"name\":\"get_flow\",\"arguments\":{\"index\":0}}}";
    assert!(matches!(handle_line(&mut store, line), LineOutcome::Refused));
    assert_eq!(store.session.len(), 1);
}

fn reply(store: &mut Store, line: &str) -> Value {
    match handle_line(store, line) {
        LineOutcome::Reply(s) => serde_json::from_str(&s).unwrap(),
        _ => panic!("no reply"),
    }
}

#[test]
fn protocol_replies() {
    let mut store = Store::new();
    match handle_line(&mut store, "{\"id\":7,\"method\":\"initialize\",\"params\":{}}") {
        LineOutcome::Reply(s) => assert_eq!(
            s,
            "{\"id\":7,\"jsonrpc\":\"2.0\",\"result\":{\"capabilities\":{\"tools\":{}},\
\"protocolVersion\":\"2025-06-18\",\"serverInfo\":{\"name\":\"rproxy\",\"version\":\"0.1.0\"}}}"
        ),
        _ => panic!("no reply"),
    }
    let line = "{\"id\":\"x\",\"method\":\"initialize\",\"params\":{\"protocolVersion\":\"1\"}}";
    let v = reply(&mut store, line);
    assert_eq!(v["result"]["protocolVersion"], "1");
    assert_eq!(v["id"], "x");

    let v = reply(&mut store, "{\"id\":null,\"method\":\"tools/list\"}");
    assert!(v["id"].is_null());
    assert_eq!(v["result"]["tools"], tools_list());

    let v = reply(&mut store, "{\"id\":1,\"method\":\"fly\"}");
    assert_eq!(v["result"]["error"]["code"], -32601);
    assert_eq!(v["result"]["error"]["message"], "method not found: fly");

    let v = reply(&mut store, "{\"id\":1}");
    assert_eq!(v["result"]["error"]["message"], "method not found: ");

    let line = "{\"id\":2,\"method\":\"tools/call\",\"params\":{\"name\":\"toggle_recording\"}}";
    let v = reply(&mut store, line);
    assert_eq!(text_of(&v["result"]), "recording OFF");
    assert!(!store.is_recording());
}

#[test]
fn notifications_get_no_reply() {
    let mut store = Store::new();
    for line in ["{\"method\":\"notifications/initialized\"}", "not JSON", "[1,2]", "5", ""] {
        assert!(matches!(handle_line(&mut store, line), LineOutcome::Silent));
    }
    // A call without an id is carried out all the same.
    let line = "{\"method\":\"tools/call\",\"params\":{\"name\":\"toggle_recording\"}}";
    assert!(matches!(handle_line(&mut store, line), LineOutcome::Silent));
    assert!(!store.is_recording());
}

#[test]
fn tools_are_listed() {
    let v = tools_list();
    let names: Vec<&str> = v.as_array().unwrap().iter().map(|t| t["name"].as_str().unwrap()).collect();
    assert_eq!(
        names,
        vec!["get_flows", "get_flow", "export_flow_curl", "toggle_recording", "clear_session", "get_status"]
    );
    assert_eq!(v[0]["inputSchema"]["properties"]["filter"]["type"], "string");
    assert_eq!(v[0]["inputSchema"]["properties"]["limit"]["type"], "integer");
    assert_eq!(v[1]["inputSchema"]["required"][0], "index");
    assert_eq!(v[1]["inputSchema"]["type"], "object");
    assert_eq!(v[5]["description"], "Session status: flow count, recording flag");
}

#[test]
fn records_only_while_recording() {
    let mut store = Store::default();
    assert!(!store.is_recording());
    store.record(fake_exchange());
    assert!(store.session.is_empty());
    call_tool(&mut store, "toggle_recording", none());
    store.record(fake_exchange());
    assert_eq!(store.session.len(), 1);
    assert_eq!(store.session[0].id, ExchangeId(1));
}

#[test]
fn listed_tools_are_known_and_their_objects_read_back() {
    for t in tools_list().as_array().unwrap() {
        let name = t["name"].as_str().unwrap();
        let mut store = Store::new();
        store.record(fake_exchange());
        let r = call_tool(&mut store, name, obj(vec![("index", 0.into())]));
        let text = text_of(&r);
        assert!(!text.starts_with("unknown tool: "), "{name}");
        let required = match name {
            "get_flow" | "export_flow_curl" => Value::from(vec!["index"]),
            _ => Value::Null,
        };
        assert_eq!(t["inputSchema"]["required"], required);
        let read: Option<Value> = serde_json::from_str(&text).ok();
        match name {
            "get_status" => assert_eq!(read.unwrap()["flows"], 1),
            "get_flows" => assert_eq!(read.unwrap()["flows"][0]["url"], "http://api.test/login"),
            "get_flow" => {
                assert_eq!(read.unwrap()["request_headers"][0][1], "application/json");
            }
            _ => assert!(read.is_none()),
        }
    }
    let r = call_tool(&mut Store::new(), "get_flowz", none());
    assert_eq!(text_of(&r), "unknown tool: get_flowz");
}

#[test]
fn one_body_is_shown_though_the_other_cannot_be_cut() {
    let mut ex = fake_exchange();
    ex.response_body = Some(bytes::Bytes::from(format!("{}é", "a".repeat(19_999))));
    assert_eq!(body_of(&ex, false), "{\"user\":\"admin\"}");
}

#[test]
fn letter_case_does_not_matter() {
    let mut store = Store::new();
    let mut ex = fake_exchange();
    if let Some(r) = &mut ex.request {
        r.uri = "http://API.test/Login".into();
        r.headers = vec![("HOST".into(), "x".into()), ("Content-Length".into(), "1".into())];
    }
    assert!(!to_curl(&ex).contains("-H"));
    store.record(ex);
    for filter in ["api.TEST", "LOGIN", "post"] {
        let r = call_tool(&mut store, "get_flows", obj(vec![("filter", filter.into())]));
        assert!(text_of(&r).contains("\"total\": 1"), "{filter}");
    }
}
