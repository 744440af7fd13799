//! The archive of recorded exchanges.

use rproxy::har::{exchange_to_entry, har_at, to_har};
use rproxy::model::{
    Clock, ConnectionId, Exchange, ExchangeId, ExchangeState, HttpRequest, Protocol,
};

fn at(n: u64) -> Clock {
    Clock { monotonic: n, wall: n }
}

fn sample() -> Exchange {
    let mut ex = Exchange::new(ExchangeId(1), ConnectionId(1), Protocol::Http1, at(0));
    ex.request = Some(HttpRequest {
        method: "GET".into(),
        uri: "http://example.com/api".into(),
        headers: vec![("host".into(), "example.com".into())],
        is_connect: false,
    });
    ex.response_status = Some(200);
    ex.response_headers = vec![("content-type".into(), "application/json".into())];
    ex.response_content_type = Some("application/json".into());
    ex.request_body = Some(bytes::Bytes::new());
    ex.response_body = Some(bytes::Bytes::from_static(b"{\"ok\":true}"));
    ex
}

#[test]
fn har_export_contains_entries() {
    let har = to_har(&[sample()]);
    let v: serde_json::Value = serde_json::from_str(&har).expect("valid JSON");
    let entries = v["log"]["entries"].as_array().expect("entries");
    assert_eq!(entries.len(), 1);
    assert_eq!(entries[0]["request"]["method"], "GET");
    assert_eq!(entries[0]["request"]["url"], "http://example.com/api");
    assert_eq!(entries[0]["response"]["status"], 200);
    assert_eq!(entries[0]["response"]["content"]["text"], "{\"ok\":true}");
    assert!(v["log"]["creator"]["name"] == "rproxy");
}

#[test]
fn entry_in_full() {
    let mut ex = sample();
    ex.started_wall = Some(1_546_300_800_000_000_000);
    ex.finish(ExchangeState::Complete, at(12_999_999));
    let text = exchange_to_entry(&ex, 7).to_string();
    let expected = "{\"_error\":null,\"_state\":\"Complete\",\"cache\":{},\
\"request\":{\"bodySize\":0,\"headers\":[{\"name\":\"host\",\"value\":\"example.com\"}],\
\"headersSize\":-1,\"httpVersion\":\"HTTP/1.1\",\"method\":\"GET\",\
\"postData\":{\"mimeType\":\"\",\"text\":\"\"},\"queryString\":[],\
\"url\":\"http://example.com/api\"},\
\"response\":{\"bodySize\":11,\"content\":{\"mimeType\":\"application/json\",\"size\":11,\
\"text\":\"{\\\"ok\\\":true}\"},\"headers\":[{\"name\":\"content-type\",\"value\":\"application/json\"}],\
\"headersSize\":-1,\"httpVersion\":\"HTTP/1.1\",\"redirectURL\":\"\",\"status\":200,\
\"statusText\":\"\"},\"startedDateTime\":\"2019-01-01T00:00:00Z\",\"time\":12,\
\"timings\":{\"receive\":0,\"send\":0,\"wait\":12.0}}";
    assert_eq!(text, expected);
}

#[test]
fn entry_of_what_is_not_known() {
    let mut ex = Exchange::new(ExchangeId(9), ConnectionId(1), Protocol::Http1, at(5));
    ex.started_wall = None;
    ex.fail("refused".to_string(), at(4));
    let e = exchange_to_entry(&ex, 1_000_000_000);
    assert_eq!(e["startedDateTime"], "1970-01-01T00:00:01Z");
    assert_eq!(e["request"]["method"], "-");
    assert_eq!(e["request"]["url"], "-");
    assert_eq!(e["request"]["bodySize"], -1);
    assert_eq!(e["response"]["status"], 0);
    assert_eq!(e["response"]["content"]["size"], -1);
    assert_eq!(e["response"]["content"]["text"], "");
    assert_eq!(e["_state"], "Failed");
    assert_eq!(e["_error"], "refused");
    // The clock went back: no time at all.
    assert_eq!(e["time"], 0);
}

#[test]
fn bodies_in_an_entry() {
    let mut ex = sample();
    ex.request.as_mut().unwrap().headers.push(("Content-Type".into(), "text/x".into()));
    ex.request_body = Some(bytes::Bytes::from_static(b"a\xffb"));
    ex.response_body_decoded = Some(bytes::Bytes::from_static(b"undone"));
    let e = exchange_to_entry(&ex, 0);
    assert_eq!(e["request"]["postData"]["mimeType"], "text/x");
    assert_eq!(e["request"]["postData"]["text"], "a\u{fffd}b");
    assert_eq!(e["response"]["content"]["text"], "undone");
    assert_eq!(e["response"]["content"]["size"], 11);
}

#[test]
fn one_entry_for_each_in_order() {
    let mut list = Vec::new();
    for i in 0..3u64 {
        let mut ex = sample();
        ex.request.as_mut().unwrap().uri = format!("http://h/{i}");
        list.push(ex);
    }
    let v: serde_json::Value = serde_json::from_str(&har_at(&list, 0)).expect("valid JSON");
    let entries = v["log"]["entries"].as_array().expect("entries");
    let urls: Vec<&str> = entries.iter().map(|e| e["request"]["url"].as_str().unwrap()).collect();
    assert_eq!(urls, vec!["http://h/0", "http://h/1", "http://h/2"]);
    assert_eq!(v["log"]["version"], "1.2");
    assert_eq!(v["log"]["creator"]["version"], rproxy::VERSION);
}

#[test]
fn empty_archive_is_laid_out() {
    let expected = "{\n  \"log\": {\n    \"creator\": {\n      \"name\": \"rproxy\",\n      \
\"version\": \"0.1.0\"\n    },\n    \"entries\": [],\n    \"version\": \"1.2\"\n  }\n}";
    assert_eq!(to_har(&[]), expected);
}
