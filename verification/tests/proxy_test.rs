//! The way of requests and tunnels through the proxy.

use rproxy::body::{BodyCapture, BODY_CAPTURE_LIMIT};
use rproxy::breakpoints::{BreakpointDecision, BreakpointHub};
use rproxy::events::ProxyEvent;
use rproxy::flow::{Flow, FlowAction, OriginFailure, Step};
use rproxy::ids::Ids;
use rproxy::model::{
    Clock, ConnectionId, Exchange, ExchangeCtx, ExchangeId, ExchangeState, HttpRequest,
    HttpResponse, Protocol,
};
use rproxy::pipeline::{InterceptAction, Pipeline, RequestInterceptor, ResponseInterceptor};
use rproxy::tools::{build_pipeline, MapLocalRule, Rule, Tool, ToolsConfig};
use rproxy::tunnel::{Tunnel, TunnelAction, TunnelNews};

type Raw = Vec<(String, Vec<u8>)>;

fn at(n: u64) -> Clock {
    Clock { monotonic: n, wall: n + 1000 }
}

fn raw(headers: &[(&str, &str)]) -> Raw {
    headers.iter().map(|(k, v)| (k.to_string(), v.as_bytes().to_vec())).collect()
}

fn plain() -> Pipeline<Tool, Tool> {
    Pipeline::new()
}

fn begin(uri: &str, headers: Raw) -> (Flow, Exchange) {
    let (flow, event) = Flow::begin(ExchangeId(5), ConnectionId(6), "GET", uri, headers, at(10));
    match event {
        ProxyEvent::ExchangeStarted(ex) => (flow, ex),
        _ => panic!("no start"),
    }
}

fn completed(step: &Step) -> &Exchange {
    match &step.event {
        Some(ProxyEvent::ExchangeCompleted(ex)) => ex,
        _ => panic!("no ExchangeCompleted"),
    }
}

fn body_of_text(s: &str) -> Option<bytes::Bytes> {
    Some(bytes::Bytes::from(s.to_string()))
}

#[test]
fn forward_proxy_request_works() {
    let (mut flow, started) = begin("http://origin/hello", raw(&[("host", "origin")]));
    assert_eq!(started.state, ExchangeState::InProgress);
    assert_eq!(started.timing.started_at, Some(10));
    assert_eq!(started.started_wall, Some(1010));
    flow.set_request_body(Some(bytes::Bytes::new()));
    let step = flow.intercept(&plain(), None, at(11));
    assert!(step.event.is_none());
    match step.action {
        FlowAction::Forward { method, uri, headers, target } => {
            assert_eq!(method, "GET");
            assert_eq!(uri, "http://origin/hello");
            assert_eq!(headers, raw(&[("host", "origin")]));
            assert!(target.is_none());
        }
        _ => panic!("not sent"),
    }

    let step = flow.answer(200, Vec::new(), body_of_text("origin reply for /hello"), &plain(), at(12));
    let ex = completed(&step);
    assert_eq!(ex.protocol, Protocol::Http1);
    assert_eq!(ex.response_status, Some(200));
    assert_eq!(ex.state, ExchangeState::Complete);
    assert_eq!(ex.request_body.as_deref(), Some(b"".as_slice()));
    assert_eq!(ex.response_body.as_deref(), Some(b"origin reply for /hello".as_slice()));
    assert_eq!(ex.timing.total(), Some(2));
    match step.action {
        FlowAction::Relay { status, headers, body } => {
            assert_eq!(status, 200);
            assert!(headers.is_empty());
            assert_eq!(body.as_deref(), Some(b"origin reply for /hello".as_slice()));
        }
        _ => panic!("not relayed"),
    }
}

struct BlockAll;

impl RequestInterceptor for BlockAll {
    fn on_request(&self, _req: &mut HttpRequest, _ctx: &ExchangeCtx) -> InterceptAction {
        InterceptAction::ShortCircuit(HttpResponse::text(403, "blocked by rproxy"))
    }
}

impl ResponseInterceptor for BlockAll {
    fn on_response(&self, _resp: &mut HttpResponse, _ctx: &ExchangeCtx) -> InterceptAction {
        InterceptAction::Block { status: 451 }
    }
}

#[test]
fn pipeline_short_circuit_intercepts_request() {
    let pipeline: Pipeline<BlockAll, BlockAll> =
        Pipeline::new().with_request_interceptor(BlockAll);
    let (mut flow, _) = begin("http://origin/hello", Vec::new());
    let step = flow.intercept(&pipeline, None, at(11));
    assert_eq!(completed(&step).state, ExchangeState::Blocked);
    match step.action {
        FlowAction::Reply(r) => {
            assert_eq!(r.status, 403);
            assert_eq!(&r.body[..], b"blocked by rproxy");
        }
        _ => panic!("not answered"),
    }
}

#[test]
fn connect_tunnel_passthrough_works() {
    let (mut t, step) = Tunnel::open(ExchangeId(1), ConnectionId(2), "origin:80", false, at(1));
    match step.event {
        Some(ProxyEvent::ExchangeStarted(ex)) => {
            let r = ex.request.unwrap();
            assert_eq!(ex.protocol, Protocol::ConnectTunnel);
            assert_eq!((r.method.as_str(), r.uri.as_str()), ("CONNECT", "origin:80"));
            assert!(r.is_connect && r.headers.is_empty());
        }
        _ => panic!("no start"),
    }
    assert!(matches!(step.action, TunnelAction::Dial(a) if a == "origin:80"));
    let step = t.advance(TunnelNews::Dialed(None), at(2));
    assert!(step.event.is_none());
    assert!(matches!(step.action, TunnelAction::Accept { status: 200 }));
    let step = t.advance(TunnelNews::Upgraded(None), at(3));
    assert!(matches!(step.action, TunnelAction::Splice));
    let step = t.advance(TunnelNews::Spliced(None), at(4));
    assert!(matches!(step.action, TunnelAction::Close));
    match step.event {
        Some(ProxyEvent::ExchangeCompleted(ex)) => {
            assert_eq!(ex.state, ExchangeState::Complete);
            assert_eq!(ex.timing.total(), Some(3));
        }
        _ => panic!("no end"),
    }
}

#[test]
fn decrypted_tunnel_goes_through_its_stages() {
    let (mut t, step) = Tunnel::open(ExchangeId(1), ConnectionId(2), "h:443", true, at(1));
    assert!(matches!(step.action, TunnelAction::Accept { status: 200 }));
    let step = t.advance(TunnelNews::Upgraded(None), at(2));
    assert!(matches!(step.action, TunnelAction::Issue(a) if a == "h"));
    let step = t.advance(TunnelNews::Issued(true), at(3));
    assert!(matches!(step.action, TunnelAction::Handshake));
    let step = t.advance(TunnelNews::Shaken(None), at(4));
    assert!(matches!(step.action, TunnelAction::Serve(a) if a == "h:443"));
    let step = t.advance(TunnelNews::Served(None), at(5));
    assert!(matches!(step.action, TunnelAction::Close));
    assert!(matches!(step.event, Some(ProxyEvent::ExchangeCompleted(ex)) if ex.state == ExchangeState::Complete));
}

fn tunnel_error(decrypt: bool, good: Vec<TunnelNews>, bad: TunnelNews) -> (String, TunnelAction) {
    let (mut t, _) = Tunnel::open(ExchangeId(1), ConnectionId(2), "h:443", decrypt, at(1));
    for news in good {
        let step = t.advance(news, at(2));
        assert!(step.event.is_none());
    }
    let step = t.advance(bad, at(3));
    match step.event {
        Some(ProxyEvent::ExchangeCompleted(ex)) => {
            assert_eq!(ex.state, ExchangeState::Failed);
            (ex.error.unwrap(), step.action)
        }
        _ => panic!("no end"),
    }
}

#[test]
fn tunnel_errors_say_where() {
    let e = || Some("boom".to_string());
    let up = || TunnelNews::Upgraded(None);

    let (text, action) = tunnel_error(false, vec![], TunnelNews::Dialed(e()));
    assert_eq!(text, "connect: boom");
    assert!(matches!(action, TunnelAction::Refuse { status: 502 }));

    let (text, action) =
        tunnel_error(false, vec![TunnelNews::Dialed(None)], TunnelNews::Upgraded(e()));
    assert_eq!(text, "upgrade: boom");
    assert!(matches!(action, TunnelAction::Close));

    let (text, _) = tunnel_error(true, vec![], TunnelNews::NotPlain);
    assert_eq!(text, "upgrade downcast failed");
    let (text, _) =
        tunnel_error(false, vec![TunnelNews::Dialed(None), up()], TunnelNews::Spliced(e()));
    assert_eq!(text, "tunnel: boom");
    let (text, _) = tunnel_error(true, vec![up()], TunnelNews::Issued(false));
    assert_eq!(text, "leaf cert for h:443 failed");
    let (text, _) =
        tunnel_error(true, vec![up(), TunnelNews::Issued(true)], TunnelNews::Shaken(e()));
    assert_eq!(text, "client TLS handshake (h:443): boom");
    let good = vec![up(), TunnelNews::Issued(true), TunnelNews::Shaken(None)];
    let (text, _) = tunnel_error(true, good, TunnelNews::Served(e()));
    assert_eq!(text, "mitm session (h:443): boom");
}

#[test]
fn block_tool_e2e() {
    let cfg = ToolsConfig {
        block: vec![Rule { pattern: "blocked.test".into(), status: Some(403), replace: None }],
        ..Default::default()
    };
    let (mut flow, _) = begin("http://blocked.test/x", raw(&[("host", "blocked.test")]));
    let step = flow.intercept(&build_pipeline(&cfg), None, at(11));
    assert_eq!(completed(&step).state, ExchangeState::Blocked);
    match step.action {
        FlowAction::Reply(r) => {
            assert_eq!(r.status, 403);
            assert!(String::from_utf8_lossy(&r.body).contains("blocked by rproxy"));
        }
        _ => panic!("not answered"),
    }
}

#[test]
fn breakpoint_continue_releases_request() {
    let mut hub = BreakpointHub::new("/bp", true);
    let (mut flow, _) = begin("http://origin/bp", Vec::new());
    let step = flow.intercept(&plain(), Some(&hub), at(11));
    let id = match step.event {
        Some(ProxyEvent::BreakpointHit(ex)) => {
            assert!(ex.request.as_ref().unwrap().uri.contains("/bp"));
            assert_eq!(ex.state, ExchangeState::BreakpointHeld);
            ex.id.0
        }
        _ => panic!("no BreakpointHit"),
    };
    assert!(matches!(step.action, FlowAction::Wait));

    let (tx, mut rx) = tokio::sync::oneshot::channel();
    hub.register(id, tx);
    assert!(hub.resolve(hub.pending()[0], BreakpointDecision::Continue));
    let decision = rx.try_recv().expect("delivered");
    let step = flow.decide(decision, at(12));
    assert!(matches!(step.action, FlowAction::Forward { .. }));
    let step = flow.answer(200, Vec::new(), body_of_text("held origin body"), &plain(), at(13));
    assert!(matches!(step.action, FlowAction::Relay { status: 200, .. }));
}

#[test]
fn breakpoint_drop_returns_403() {
    let mut hub = BreakpointHub::new("/bp", true);
    let (mut flow, _) = begin("http://origin/bp", Vec::new());
    let step = flow.intercept(&plain(), Some(&hub), at(11));
    assert!(matches!(step.event, Some(ProxyEvent::BreakpointHit(_))));
    let (tx, mut rx) = tokio::sync::oneshot::channel();
    hub.register(5, tx);
    hub.resolve_all(BreakpointDecision::Drop);
    let step = flow.decide(rx.try_recv().expect("delivered"), at(12));
    assert_eq!(completed(&step).state, ExchangeState::Blocked);
    assert!(matches!(step.action, FlowAction::Reply(r) if r.status == 403 && r.body.is_empty()));
}

#[test]
fn disabled_hub_passes_through() {
    let hub = BreakpointHub::new("held", false);
    let (mut flow, _) = begin("http://origin/held", Vec::new());
    let step = flow.intercept(&plain(), Some(&hub), at(11));
    assert!(matches!(step.action, FlowAction::Forward { .. }));
    let step = flow.answer(200, Vec::new(), body_of_text(""), &plain(), at(12));
    assert!(matches!(step.action, FlowAction::Relay { status: 200, .. }));
}

struct HoldAll;

impl RequestInterceptor for HoldAll {
    fn on_request(&self, _req: &mut HttpRequest, _ctx: &ExchangeCtx) -> InterceptAction {
        InterceptAction::Hold
    }
}

impl ResponseInterceptor for HoldAll {
    fn on_response(&self, resp: &mut HttpResponse, _ctx: &ExchangeCtx) -> InterceptAction {
        resp.status = 299;
        resp.headers.push(("x-seen".into(), "1".into()));
        InterceptAction::Hold
    }
}

#[test]
fn a_wish_to_hold_needs_a_hub() {
    let pipeline: Pipeline<HoldAll, HoldAll> = Pipeline::new().with_request_interceptor(HoldAll);
    let (mut flow, _) = begin("http://origin/", Vec::new());
    let step = flow.intercept(&pipeline, None, at(11));
    assert!(matches!(step.action, FlowAction::Forward { .. }));
    let (mut flow, _) = begin("http://origin/", Vec::new());
    let step = flow.intercept(&pipeline, Some(&BreakpointHub::default()), at(11));
    assert!(matches!(step.action, FlowAction::Wait));
}

#[test]
fn responses_go_through_the_pipeline() {
    let pipeline: Pipeline<HoldAll, HoldAll> = Pipeline::new().with_response_interceptor(HoldAll);
    let (mut flow, _) = begin("http://origin/", Vec::new());
    flow.intercept(&pipeline, None, at(11));
    let headers = raw(&[("content-type", "text/x")]);
    let step = flow.answer(200, headers, body_of_text("b"), &pipeline, at(12));
    let ex = completed(&step);
    assert_eq!(ex.response_status, Some(200));
    assert_eq!(ex.response_content_type.as_deref(), Some("text/x"));
    assert_eq!(ex.response_headers, vec![("content-type".to_string(), "text/x".to_string())]);
    match step.action {
        FlowAction::Relay { status, headers, .. } => {
            assert_eq!(status, 299);
            assert_eq!(headers, raw(&[("content-type", "text/x"), ("x-seen", "1")]));
        }
        _ => panic!("not relayed"),
    }

    let pipeline: Pipeline<BlockAll, BlockAll> =
        Pipeline::new().with_response_interceptor(BlockAll);
    let (mut flow, _) = begin("http://origin/", Vec::new());
    flow.intercept(&pipeline, None, at(11));
    let step = flow.answer(200, Vec::new(), None, &pipeline, at(12));
    assert_eq!(completed(&step).state, ExchangeState::Blocked);
    assert_eq!(completed(&step).response_status, Some(200));
    assert!(matches!(step.action, FlowAction::Reply(r) if r.status == 451));
}

#[test]
fn files_are_served() {
    let cfg = ToolsConfig {
        map_local: vec![MapLocalRule {
            pattern: "h.test".into(),
            file: "mock.json".into(),
            status: None,
            content_type: None,
        }],
        ..Default::default()
    };
    let (mut flow, _) = begin("http://h.test/", Vec::new());
    let step = flow.intercept(&build_pipeline(&cfg), None, at(11));
    assert!(step.event.is_none());
    assert!(matches!(step.action, FlowAction::ReadFile(f) if f == "mock.json"));
    let step = flow.serve_file(Ok(bytes::Bytes::from_static(b"{}")), at(12));
    assert_eq!(completed(&step).state, ExchangeState::Blocked);
    match step.action {
        FlowAction::Reply(r) => {
            assert_eq!(r.status, 200);
            assert_eq!(r.body.as_ref(), b"{}");
        }
        _ => panic!("not answered"),
    }
}

#[test]
fn failures_say_where() {
    let cases = vec![
        (OriginFailure::Connect("x".into()), "origin connect: x"),
        (OriginFailure::ServerName("x".into()), "bad server name: x"),
        (OriginFailure::Tls("x".into()), "origin TLS handshake: x"),
        (OriginFailure::Handshake("x".into()), "origin http1 handshake: x"),
        (OriginFailure::Exchange("x".into()), "x"),
    ];
    for (failure, words) in cases {
        let (mut flow, _) = begin("http://origin/", Vec::new());
        flow.intercept(&plain(), None, at(11));
        let step = flow.give_up(failure, at(12));
        assert_eq!(completed(&step).state, ExchangeState::Failed);
        assert_eq!(completed(&step).error.as_deref(), Some(words));
        assert!(matches!(step.action, FlowAction::Reply(r) if r.status == 502));
    }
}

#[test]
fn mitm_decrypts_https_traffic() {
    let (mut flow, event) = Flow::begin_decrypted(
        ExchangeId(1),
        ConnectionId(1),
        "GET",
        "127.0.0.1:4433",
        "/sec",
        raw(&[("host", "origin.test"), ("proxy-connection", "x"), ("Proxy-Authorization", "y")]),
        at(1),
    );
    match event {
        ProxyEvent::ExchangeStarted(ex) => {
            assert!(ex.request.unwrap().uri.contains("/sec"));
        }
        _ => panic!("no start"),
    }
    let step = flow.intercept(&plain(), None, at(2));
    match step.action {
        FlowAction::Forward { uri, headers, target, .. } => {
            assert_eq!(uri, "https://127.0.0.1:4433/sec");
            let t = target.unwrap();
            assert_eq!((t.host.as_str(), t.port, t.path.as_str()), ("127.0.0.1", 4433, "/sec"));
            assert_eq!(t.authority, "127.0.0.1:4433");
            assert_eq!(headers, raw(&[("host", "127.0.0.1:4433")]));
        }
        _ => panic!("not sent"),
    }
    let step = flow.answer(200, Vec::new(), body_of_text("secret from tls origin"), &plain(), at(3));
    let ex = completed(&step);
    assert!(ex.request.as_ref().unwrap().uri.contains("/sec"));
    assert_eq!(ex.response_status, Some(200));
    match step.action {
        FlowAction::Relay { body, .. } => {
            assert_eq!(body.as_deref(), Some(b"secret from tls origin".as_slice()));
        }
        _ => panic!("not relayed"),
    }
}

#[test]
fn decrypted_request_is_sent_where_a_tool_says() {
    let cfg = ToolsConfig {
        map_remote: vec![Rule {
            pattern: "old.test".into(),
            status: None,
            replace: Some("new.test:8443".into()),
        }],
        ..Default::default()
    };
    let (mut flow, _) = Flow::begin_decrypted(
        ExchangeId(1),
        ConnectionId(1),
        "GET",
        "old.test",
        "/p?q",
        raw(&[("host", "old.test")]),
        at(1),
    );
    match flow.intercept(&build_pipeline(&cfg), None, at(2)).action {
        FlowAction::Forward { uri, headers, target, .. } => {
            assert_eq!(uri, "https://new.test:8443/p?q");
            let t = target.unwrap();
            assert_eq!((t.host.as_str(), t.port, t.path.as_str()), ("new.test", 8443, "/p?q"));
            assert_eq!(headers, raw(&[("host", "new.test:8443")]));
        }
        _ => panic!("not sent"),
    }
}

#[test]
fn a_body_is_passed_on_while_it_comes() {
    let cfg = ToolsConfig { no_caching: true, ..Default::default() };
    let pipeline = build_pipeline(&cfg);
    let headers = raw(&[("etag", "x"), ("content-type", "text/plain")]);
    let (mut flow, _) = begin("http://origin/", Vec::new());
    flow.intercept(&pipeline, None, at(11));
    let step = flow.answer_head(200, headers.clone(), &pipeline, at(12));
    assert!(step.event.is_none());
    let head = match step.action {
        FlowAction::Relay { status: 200, headers, body: None } => headers,
        _ => panic!("not relayed"),
    };
    assert_eq!(head, raw(&[("content-type", "text/plain"), ("cache-control", "no-store")]));
    flow.set_request_body(body_of_text("asked"));
    let step = flow.finish(body_of_text("told"), at(13));
    assert!(matches!(step.action, FlowAction::Rest));
    let ex = completed(&step);
    assert_eq!(ex.state, ExchangeState::Complete);
    assert_eq!(ex.response_status, Some(200));
    assert_eq!(ex.response_content_type.as_deref(), Some("text/plain"));
    assert_eq!(ex.request_body.as_deref(), Some(b"asked".as_slice()));
    assert_eq!(ex.response_body.as_deref(), Some(b"told".as_slice()));

    // The same, with the body at hand.
    let (mut flow, _) = begin("http://origin/", Vec::new());
    flow.intercept(&pipeline, None, at(11));
    let step = flow.answer(200, headers, body_of_text("told"), &pipeline, at(13));
    match step.action {
        FlowAction::Relay { status: 200, headers, body } => {
            assert_eq!(headers, head);
            assert_eq!(body.as_deref(), Some(b"told".as_slice()));
        }
        _ => panic!("not relayed"),
    }
}

#[test]
fn fields_that_cannot_be_read_stay_what_they_were() {
    let bytes_of = |s: &str| s.as_bytes().to_vec();
    let received = vec![
        ("x".to_string(), vec![0xff]),
        ("a".to_string(), bytes_of("1")),
        ("X".to_string(), vec![0xfe]),
        ("y".to_string(), Vec::new()),
        ("Y".to_string(), vec![0xfd]),
    ];
    let pair = |k: &str, v: &str| (k.to_string(), v.to_string());
    // A tool has added a field, and made another empty.
    let model = vec![pair("x", ""), pair("a", ""), pair("X", ""), pair("y", ""), pair("Y", ""),
        pair("x", ""), pair("new", "2")];
    assert_eq!(
        rproxy::wire::outgoing_fields(&received, &model),
        vec![
            ("x".to_string(), vec![0xff]),
            ("a".to_string(), Vec::new()),
            ("X".to_string(), vec![0xfe]),
            ("y".to_string(), Vec::new()),
            ("Y".to_string(), vec![0xfd]),
            ("x".to_string(), Vec::new()),
            ("new".to_string(), bytes_of("2")),
        ]
    );
    let texts = rproxy::wire::texts_of(&received);
    assert_eq!(rproxy::wire::outgoing_fields(&received, &texts), received);
}

#[test]
fn actions_are_copied_whole() {
    let answer = HttpResponse::text(403, "no");
    match InterceptAction::ShortCircuit(answer).clone() {
        InterceptAction::ShortCircuit(r) => {
            assert_eq!((r.status, r.body.as_ref()), (403, b"no".as_slice()));
        }
        _ => panic!("another action"),
    }
    assert!(matches!(InterceptAction::Block { status: 404 }.clone(), InterceptAction::Block { status: 404 }));
    let (mut flow, _) = begin("http://origin/", Vec::new());
    let p: Pipeline<Tool, Tool> = Pipeline::default();
    assert!(matches!(flow.intercept(&p, None, at(11)).action, FlowAction::Forward { .. }));
}

#[test]
fn plain_request_goes_over_tls_only_where_a_tool_says() {
    let (mut flow, _) = begin("https://old.test/p", Vec::new());
    match flow.intercept(&plain(), None, at(11)).action {
        FlowAction::Forward { uri, target, .. } => {
            assert_eq!(uri, "https://old.test/p");
            assert!(target.is_none());
        }
        _ => panic!("not sent"),
    }
    let cfg = ToolsConfig {
        map_remote: vec![Rule {
            pattern: "old.test".into(),
            status: None,
            replace: Some("new.test".into()),
        }],
        ..Default::default()
    };
    let (mut flow, _) = begin("https://old.test/p", Vec::new());
    match flow.intercept(&build_pipeline(&cfg), None, at(11)).action {
        FlowAction::Forward { uri, target, .. } => {
            assert_eq!(uri, "https://new.test/p");
            assert_eq!(target.unwrap().authority, "new.test");
        }
        _ => panic!("not sent"),
    }
}

#[test]
fn large_bodies_pass_without_being_kept() {
    let (mut flow, _) = begin("http://origin/", Vec::new());
    flow.intercept(&plain(), None, at(11));
    let step = flow.answer(200, raw(&[("a", "b")]), None, &plain(), at(12));
    assert!(completed(&step).response_body.is_none());
    assert!(matches!(step.action, FlowAction::Relay { status: 200, body: None, .. }));

    let mut capture = BodyCapture::new();
    let chunk = vec![7u8; 1024 * 1024];
    for _ in 0..16 {
        capture = capture.push(&chunk);
    }
    assert!(!capture.is_over());
    assert_eq!(BODY_CAPTURE_LIMIT, 16 * 1024 * 1024);
    let over = capture.push(&[1]);
    assert!(over.is_over());
    let over = over.push(&[2]);
    assert!(over.is_over());
    assert!(over.finish().is_none());
    let kept = BodyCapture::new().push(b"ab").push(b"").push(b"c").finish();
    assert_eq!(kept.as_deref(), Some(b"abc".as_slice()));
}

#[test]
fn numbers_go_up_from_one() {
    let mut ids = Ids::new();
    assert_eq!(ids.new_exchange_id(), ExchangeId(1));
    assert_eq!(ids.new_exchange_id(), ExchangeId(2));
    assert_eq!(ids.new_connection_id(), ConnectionId(1));
    assert_eq!(ids.new_exchange_id(), ExchangeId(3));
    assert_eq!(Ids::default().new_connection_id(), ConnectionId(1));
}

struct Tag(&'static str, bool);

impl RequestInterceptor for Tag {
    fn on_request(&self, req: &mut HttpRequest, ctx: &ExchangeCtx) -> InterceptAction {
        req.headers.push((self.0.to_string(), format!("{} {}", ctx.exchange_id, ctx.url)));
        if self.1 {
            InterceptAction::Continue
        } else {
            InterceptAction::Block { status: 418 }
        }
    }
}

impl ResponseInterceptor for Tag {
    fn on_response(&self, resp: &mut HttpResponse, _ctx: &ExchangeCtx) -> InterceptAction {
        resp.headers.push((self.0.to_string(), String::new()));
        if self.1 {
            InterceptAction::Continue
        } else {
            InterceptAction::ShortCircuit(HttpResponse::empty(204))
        }
    }
}

#[test]
fn chains_run_in_order_and_stop_at_the_first_answer() {
    let pipeline: Pipeline<Tag, Tag> = Pipeline::new()
        .with_request_interceptor(Tag("one", true))
        .with_request_interceptor(Tag("two", false))
        .with_request_interceptor(Tag("three", true))
        .with_response_interceptor(Tag("a", true))
        .with_response_interceptor(Tag("b", false))
        .with_response_interceptor(Tag("c", true));
    let ctx = ExchangeCtx { exchange_id: 3, url: "http://h/".into() };
    let mut req = HttpRequest {
        method: "GET".into(),
        uri: "http://h/".into(),
        headers: Vec::new(),
        is_connect: false,
    };
    let action = pipeline.process_request(&mut req, &ctx);
    assert!(matches!(action, InterceptAction::Block { status: 418 }));
    let seen: Vec<(&str, &str)> =
        req.headers.iter().map(|(k, v)| (k.as_str(), v.as_str())).collect();
    assert_eq!(seen, vec![("one", "3 http://h/"), ("two", "3 http://h/")]);

    let mut resp = HttpResponse::text(200, "x");
    let action = pipeline.process_response(&mut resp, &ctx);
    assert!(matches!(action, InterceptAction::ShortCircuit(r) if r.status == 204));
    let names: Vec<&str> = resp.headers.iter().map(|(k, _)| k.as_str()).collect();
    assert_eq!(names, vec!["content-type", "a", "b"]);

    let (mut flow, _) = begin("http://h/", Vec::new());
    let step = flow.intercept(&pipeline, None, at(11));
    assert_eq!(completed(&step).state, ExchangeState::Blocked);
    assert!(matches!(step.action, FlowAction::Reply(r) if r.status == 418 && r.headers.is_empty()));
}

#[test]
fn let_through_is_as_if_not_held() {
    let headers = || raw(&[("a", "1"), ("b", "2")]);
    let hub = BreakpointHub::new("h", true);
    let (mut held, _) = begin("http://h/", headers());
    held.intercept(&plain(), Some(&hub), at(11));
    let held = held.decide(BreakpointDecision::Continue, at(20));
    let (mut free, _) = begin("http://h/", headers());
    let free = free.intercept(&plain(), None, at(11));
    match (held.action, free.action) {
        (
            FlowAction::Forward { method, uri, headers, .. },
            FlowAction::Forward { method: m, uri: u, headers: h, .. },
        ) => {
            assert_eq!((method, uri, headers), (m, u, h));
        }
        _ => panic!("not sent"),
    }
}
