//! The tools, alone and in a pipeline.

use rproxy::headers::HeaderTable;
use rproxy::model::{ExchangeCtx, HttpRequest, HttpResponse};
use rproxy::pipeline::{InterceptAction, RequestInterceptor, ResponseInterceptor};
use rproxy::tools::{
    authority, build_pipeline, example_toml, guess_mime, BlockCookiesTool, BlockTool,
    MapLocalRule, MapLocalTool, MapRemoteTool, NoCachingTool, RewriteRule, RewriteTool, Rule,
    ToolsConfig, UrlReplace,
};

fn req(uri: &str, headers: &[(&str, &str)]) -> HttpRequest {
    HttpRequest {
        method: "GET".into(),
        uri: uri.into(),
        headers: headers.iter().map(|(k, v)| (k.to_string(), v.to_string())).collect(),
        is_connect: false,
    }
}

fn resp(status: u16, headers: &[(&str, &str)]) -> HttpResponse {
    HttpResponse {
        status,
        reason: None,
        headers: headers.iter().map(|(k, v)| (k.to_string(), v.to_string())).collect(),
        body: bytes::Bytes::new(),
    }
}

fn ctx(url: &str) -> ExchangeCtx {
    ExchangeCtx { exchange_id: 1, url: url.into() }
}

fn pairs(headers: &[(String, String)]) -> Vec<(&str, &str)> {
    headers.iter().map(|(k, v)| (k.as_str(), v.as_str())).collect()
}

#[test]
fn block_and_map_local_and_map_remote() {
    let cfg = ToolsConfig {
        block: vec![Rule { pattern: "ads.example.com".into(), status: Some(418), replace: None }],
        no_caching: false,
        block_cookies: false,
        rewrite: Vec::new(),
        map_local: vec![MapLocalRule {
            pattern: "api.test/config".into(),
            file: "rproxy-mock.json".into(),
            status: None,
            content_type: None,
        }],
        map_remote: vec![Rule {
            pattern: "api.old.com".into(),
            status: None,
            replace: Some("api.new.com".into()),
        }],
    };
    let pipeline = build_pipeline(&cfg);

    // Block
    let mut r = req("http://ads.example.com/x", &[]);
    let c = ctx(&r.uri);
    match pipeline.process_request(&mut r, &c) {
        InterceptAction::ShortCircuit(resp) => assert_eq!(resp.status, 418),
        other => panic!("expected ShortCircuit, got {other:?}"),
    }

    // Map Local
    let mut r = req("https://api.test/config", &[]);
    let c = ctx(&r.uri);
    match pipeline.process_request(&mut r, &c) {
        InterceptAction::ServeFile(rule) => {
            assert_eq!(rule.file, "rproxy-mock.json");
            let resp = rule.respond(Ok(bytes::Bytes::from_static(b"{\"mocked\":true}")));
            assert_eq!(resp.body.as_ref(), b"{\"mocked\":true}".as_slice());
            assert!(resp.headers.iter().any(|(k, v)| k == "content-type" && v.contains("json")));
        }
        other => panic!("expected ServeFile, got {other:?}"),
    }

    // Map Remote: the URI and the host header name the new host
    let mut r = req("https://api.old.com/v1", &[("host", "api.old.com")]);
    let c = ctx(&r.uri);
    assert!(matches!(pipeline.process_request(&mut r, &c), InterceptAction::Continue));
    assert!(r.uri.contains("api.new.com"));
    assert!(r.headers.iter().any(|(k, v)| k == "host" && v == "api.new.com"));

    // Map Local leaves other URLs alone
    let mut r = req("https://other.test/", &[]);
    let c = ctx(&r.uri);
    assert!(matches!(pipeline.process_request(&mut r, &c), InterceptAction::Continue));
}

#[test]
fn block_tool_answers_in_words() {
    let tool = BlockTool(vec![
        Rule { pattern: "a.test".into(), status: None, replace: None },
        Rule { pattern: "b.test".into(), status: Some(451), replace: None },
    ]);
    let mut r = req("http://a.test/", &[]);
    match tool.on_request(&mut r, &ctx("http://a.test/")) {
        InterceptAction::ShortCircuit(resp) => {
            assert_eq!(resp.status, 403);
            assert_eq!(resp.body.as_ref(), b"blocked by rproxy: a.test");
            assert_eq!(pairs(&resp.headers), vec![("content-type", "text/plain")]);
        }
        other => panic!("expected ShortCircuit, got {other:?}"),
    }
    let mut r = req("http://b.test/", &[]);
    match tool.on_request(&mut r, &ctx("http://b.test/")) {
        InterceptAction::ShortCircuit(resp) => assert_eq!(resp.status, 451),
        other => panic!("expected ShortCircuit, got {other:?}"),
    }
    let mut r = req("http://c.test/", &[]);
    assert!(matches!(tool.on_request(&mut r, &ctx("http://c.test/")), InterceptAction::Continue));
}

#[test]
fn types_by_extension() {
    assert_eq!(guess_mime("a/b.json"), "application/json");
    assert_eq!(guess_mime("x.html"), "text/html");
    assert_eq!(guess_mime("x.htm"), "text/html");
    assert_eq!(guess_mime("x.tar.xml"), "application/xml");
    assert_eq!(guess_mime("x.png"), "image/png");
    assert_eq!(guess_mime("x.jpg"), "image/jpeg");
    assert_eq!(guess_mime("x.jpeg"), "image/jpeg");
    assert_eq!(guess_mime("x.JSON"), "application/octet-stream");
    // The whole name counts where there is no dot.
    assert_eq!(guess_mime("json"), "application/json");
    assert_eq!(guess_mime(""), "application/octet-stream");
}

#[test]
fn file_rules_answer() {
    let rule = MapLocalRule {
        pattern: "x".into(),
        file: "page.html".into(),
        status: Some(201),
        content_type: Some("text/strange".into()),
    };
    let r = rule.respond(Ok(bytes::Bytes::from_static(b"hi")));
    assert_eq!(r.status, 201);
    assert_eq!(pairs(&r.headers), vec![("content-type", "text/strange")]);
    assert_eq!(r.body.as_ref(), b"hi");
    let failed = rule.respond(Err("gone".into()));
    assert_eq!(failed.status, 500);
    assert_eq!(failed.body.as_ref(), b"map_local: cannot read page.html: gone");
    assert_eq!(pairs(&failed.headers), vec![("content-type", "text/plain")]);
    let tool = MapLocalTool(vec![rule]);
    let mut r = req("http://y/", &[]);
    assert!(matches!(tool.on_request(&mut r, &ctx("http://y/")), InterceptAction::Continue));
}

#[test]
fn remote_rules_go_on_from_each_other() {
    let rule = |a: &str, b: Option<&str>| Rule {
        pattern: a.into(),
        status: None,
        replace: b.map(|s| s.to_string()),
    };
    let tool = MapRemoteTool(vec![
        rule("one.test", Some("two.test:8080")),
        rule("absent", Some("other")),
        rule("/v1", None),
    ]);
    let mut r = req("http://one.test/v1", &[("Host", "one.test")]);
    assert!(matches!(tool.on_request(&mut r, &ctx("http://one.test/v1")), InterceptAction::Continue));
    assert_eq!(r.uri, "http://two.test:8080/v1");
    assert_eq!(pairs(&r.headers), vec![("Host", "two.test:8080")]);
    assert_eq!(authority("http://h:1/p").as_deref(), Some("h:1"));
}

#[test]
fn caching_is_turned_off() {
    let mut r = req("http://h/", &[("If-None-Match", "x"), ("accept", "y")]);
    assert!(matches!(NoCachingTool.on_request(&mut r, &ctx("http://h/")), InterceptAction::Continue));
    assert!(!r.headers.iter().any(|(k, _)| k.eq_ignore_ascii_case("if-none-match")));
    assert!(r.headers.iter().any(|(k, _)| k == "accept"));
    let mut c = req(
        "http://h/",
        &[
            ("If-Match", "1"),
            ("IF-RANGE", "2"),
            ("if", "3"),
            ("x-if-match", "4"),
            ("if-unmodified-since", "5"),
            ("if-modified-since", "6"),
        ],
    );
    NoCachingTool.on_request(&mut c, &ctx("http://h/"));
    assert_eq!(pairs(&c.headers), vec![("if", "3"), ("x-if-match", "4"), ("cache-control", "no-cache")]);
    assert_eq!((c.method.as_str(), c.uri.as_str(), c.is_connect), ("GET", "http://h/", false));
    let mut a = resp(200, &[("ETag", "x"), ("content-type", "y")]);
    assert!(matches!(NoCachingTool.on_response(&mut a, &ctx("http://h/")), InterceptAction::Continue));
    assert!(!a.headers.iter().any(|(k, _)| k.eq_ignore_ascii_case("etag")));
    assert!(a.headers.iter().any(|(k, _)| k == "content-type"));
}

#[test]
fn cookies_are_blocked_both_ways() {
    let mut r = req("http://h/", &[("Cookie", "x"), ("accept", "y"), ("COOKIE", "z")]);
    assert!(matches!(BlockCookiesTool.on_request(&mut r, &ctx("http://h/")), InterceptAction::Continue));
    assert_eq!(pairs(&r.headers), vec![("accept", "y")]);
    let mut a = resp(200, &[("Set-Cookie", "x"), ("content-type", "y")]);
    assert!(matches!(BlockCookiesTool.on_response(&mut a, &ctx("http://h/")), InterceptAction::Continue));
    assert_eq!(pairs(&a.headers), vec![("content-type", "y")]);
}

#[test]
fn rewriting() {
    let rule = RewriteRule {
        pattern: "h.test".into(),
        url_replace: Some(UrlReplace { from: "a".into(), to: "b".into() }),
        set_headers: Some(HeaderTable::new().insert("X-New", "1").insert("accept", "2")),
        remove_headers: vec!["drop".into()],
        set_response_headers: Some(HeaderTable::new().insert("Server", "s")),
        set_status: Some(299),
    };
    let tool = RewriteTool(vec![rule]);
    let mut r = req("http://h.test/aa", &[("Accept", "0"), ("Drop", "x")]);
    let c = ctx("http://h.test/aa");
    assert!(matches!(tool.on_request(&mut r, &c), InterceptAction::Continue));
    assert_eq!(r.uri, "http://h.test/bb");
    assert_eq!(pairs(&r.headers), vec![("Accept", "2"), ("X-New", "1")]);
    let mut a = resp(200, &[]);
    assert!(matches!(tool.on_response(&mut a, &c), InterceptAction::Continue));
    assert_eq!(a.status, 299);
    assert_eq!(pairs(&a.headers), vec![("Server", "s")]);
    let mut a = resp(200, &[]);
    assert!(matches!(tool.on_response(&mut a, &ctx("http://other/")), InterceptAction::Continue));
    assert_eq!(a.status, 200);
    assert!(a.headers.is_empty());
}

#[test]
fn tools_run_in_their_order() {
    // The block list comes before what would take the request away from it.
    let cfg = ToolsConfig {
        block: vec![Rule { pattern: "old.test".into(), status: None, replace: None }],
        map_remote: vec![Rule {
            pattern: "old.test".into(),
            status: None,
            replace: Some("new.test".into()),
        }],
        ..Default::default()
    };
    let mut r = req("http://old.test/", &[]);
    let action = build_pipeline(&cfg).process_request(&mut r, &ctx("http://old.test/"));
    assert!(matches!(action, InterceptAction::ShortCircuit(_)));

    // A pipeline of no tools lets everything pass.
    let mut r = req("http://old.test/", &[("a", "b")]);
    let none = build_pipeline(&ToolsConfig::default());
    assert!(matches!(none.process_request(&mut r, &ctx("http://old.test/")), InterceptAction::Continue));
    assert_eq!(r.uri, "http://old.test/");
    let mut a = resp(204, &[("a", "b")]);
    assert!(matches!(none.process_response(&mut a, &ctx("http://old.test/")), InterceptAction::Continue));
    assert_eq!(a.status, 204);
}

#[test]
fn example_is_a_config() {
    let v: toml::Value = toml::from_str(example_toml()).expect("valid TOML");
    assert_eq!(v["block"][0]["match"].as_str(), Some("ads.example.com"));
    assert!(v.get("map_local").is_some());
    assert!(v.get("map_remote").is_some());
}
