//! The way of one request through the proxy, plain or decrypted: what to do next at each point,
//! and what to tell those who watch.

use crate::body::{bytes_from, opt_bytes};
use crate::breakpoints::{BreakpointDecision, BreakpointHub, HubView};
use crate::events::{opt_event, EventView, ProxyEvent};
use crate::headers;
use crate::model::{
    empty_view, finished, fresh, same_record, with_error, Clock, ConnectionId, CtxView, Exchange,
    ExchangeCtx, ExchangeId, ExchangeState, ExchangeView, HttpRequest, HttpResponse, Protocol,
    RequestView, ResponseView,
};
use crate::pipeline::{
    request_run, response_run, ActionView, InterceptAction, Pipeline, RequestInterceptor,
    ResponseInterceptor,
};
use crate::target::{
    display_uri, find_target, host_port, https_uri, law_target_of, opt_target, target_at, target_of,
    Target, TargetView,
};
use crate::text;
use crate::tools::{
    block_action, file_response, law_block_list_answers, law_block_list_comes_first,
    law_set_up_changes_requests, law_set_up_serves_files, law_tools_decide_requests,
    law_tools_decide_responses, law_tools_keep_methods, law_tools_leave_bodies, read_view,
    request_tools, tool_views, tools_request, tools_response, ConfigView, MapLocalRule,
    MapLocalView, Tool, ToolView,
};
use crate::wire::{
    field_texts, fields_for_origin, law_unchanged_fields_pass, origin_fields, outgoing,
    outgoing_fields, raw_fields, texts_of,
};
use vstd::prelude::*;

verus! {

// ---------------------------------------------------------------- data

/// How far a request has come.
pub enum Stage {
    /// It has arrived.
    Received,
    /// The file of this rule is being read, to answer with it.
    Reading(MapLocalRule),
    /// It waits for the operator.
    Held,
    /// It is on its way to the origin.
    Sent,
    /// The body of the origin's response is on its way to the client.
    Relaying,
    /// It has been answered.
    Done,
}

/// What a stage says.
pub enum StageView {
    Received,
    Reading(MapLocalView),
    Held,
    Sent,
    Relaying,
    Done,
}

impl View for Stage {
    type V = StageView;

    open spec fn view(&self) -> StageView {
        match *self {
            Stage::Received => StageView::Received,
            Stage::Reading(r) => StageView::Reading(r@),
            Stage::Held => StageView::Held,
            Stage::Sent => StageView::Sent,
            Stage::Relaying => StageView::Relaying,
            Stage::Done => StageView::Done,
        }
    }
}

/// What to do next for a request.
pub enum FlowAction {
    /// Answer the client with this response.
    Reply(HttpResponse),
    /// Answer the client with what the origin sent, under this status and these headers; with
    /// this body, or with the origin's own where there is none.
    Relay { status: u16, headers: Vec<(String, Vec<u8>)>, body: Option<bytes::Bytes> },
    /// Read this file.
    ReadFile(String),
    /// Wait for the decision of the operator.
    Wait,
    /// Send this request: to the target over TLS, or else to where the URI says.
    Forward {
        method: String,
        uri: String,
        headers: Vec<(String, Vec<u8>)>,
        target: Option<Target>,
    },
    /// Nothing: the client has been answered before.
    Rest,
}

/// What an action says.
pub enum FlowActionView {
    Reply(ResponseView),
    Relay { status: u16, headers: Seq<(Seq<char>, Seq<u8>)>, body: Option<Seq<u8>> },
    ReadFile(Seq<char>),
    Wait,
    Forward {
        method: Seq<char>,
        uri: Seq<char>,
        headers: Seq<(Seq<char>, Seq<u8>)>,
        target: Option<TargetView>,
    },
    Rest,
}

impl View for FlowAction {
    type V = FlowActionView;

    open spec fn view(&self) -> FlowActionView {
        match *self {
            FlowAction::Reply(r) => FlowActionView::Reply(r@),
            FlowAction::Relay { status, headers, body } => FlowActionView::Relay {
                status,
                headers: raw_fields(headers@),
                body: opt_bytes(body),
            },
            FlowAction::ReadFile(f) => FlowActionView::ReadFile(f@),
            FlowAction::Wait => FlowActionView::Wait,
            FlowAction::Forward { method, uri, headers, target } => FlowActionView::Forward {
                method: method@,
                uri: uri@,
                headers: raw_fields(headers@),
                target: opt_target(target),
            },
            FlowAction::Rest => FlowActionView::Rest,
        }
    }
}

/// One step: an event to publish, if there is one, and what to do next.
pub struct Step {
    pub event: Option<ProxyEvent>,
    pub action: FlowAction,
}

/// What a step says.
pub struct StepView {
    pub event: Option<EventView>,
    pub action: FlowActionView,
}

impl View for Step {
    type V = StepView;

    open spec fn view(&self) -> StepView {
        StepView { event: opt_event(self.event), action: self.action@ }
    }
}

/// Where asking the origin failed, and how.
pub enum OriginFailure {
    Connect(String),
    ServerName(String),
    Tls(String),
    Handshake(String),
    Exchange(String),
}

impl OriginFailure {
    /// The failure in words.
    pub open spec fn words(self) -> Seq<char> {
        match self {
            OriginFailure::Connect(e) => "origin connect: "@ + e@,
            OriginFailure::ServerName(e) => "bad server name: "@ + e@,
            OriginFailure::Tls(e) => "origin TLS handshake: "@ + e@,
            OriginFailure::Handshake(e) => "origin http1 handshake: "@ + e@,
            OriginFailure::Exchange(e) => e@,
        }
    }

    /// The failure in words.
    pub fn message(self) -> (r: String)
        ensures
            r@ == self.words(),
    {
        match self {
            OriginFailure::Connect(e) => joined("origin connect: ", e.as_str()),
            OriginFailure::ServerName(e) => joined("bad server name: ", e.as_str()),
            OriginFailure::Tls(e) => joined("origin TLS handshake: ", e.as_str()),
            OriginFailure::Handshake(e) => joined("origin http1 handshake: ", e.as_str()),
            OriginFailure::Exchange(e) => e,
        }
    }
}

/// One text behind another.
pub(crate) fn joined(a: &str, b: &str) -> (r: String)
    ensures
        r@ == a@ + b@,
{
    let mut s = a.to_string();
    s.push_str(b);
    s
}

/// A request on its way.
pub struct Flow {
    exchange: Exchange,
    url: String,
    received: Vec<(String, Vec<u8>)>,
    secure: Option<(String, String)>,
    outgoing: HttpRequest,
    stage: Stage,
}

/// What is known of a request on its way.
pub struct FlowView {
    /// The exchange as it is recorded.
    pub exchange: ExchangeView,
    /// The URL that the client asked for.
    pub url: Seq<char>,
    /// The headers as they arrived.
    pub received: Seq<(Seq<char>, Seq<u8>)>,
    /// Authority and path, for a request that was decrypted.
    pub secure: Option<(Seq<char>, Seq<char>)>,
    /// The request as the tools have left it.
    pub outgoing: RequestView,
    pub stage: StageView,
}

impl View for Flow {
    type V = FlowView;

    closed spec fn view(&self) -> FlowView {
        FlowView {
            exchange: self.exchange@,
            url: self.url@,
            received: raw_fields(self.received@),
            secure: match self.secure {
                Some((a, p)) => Some((a@, p@)),
                None => None,
            },
            outgoing: self.outgoing@,
            stage: self.stage@,
        }
    }
}

// ---------------------------------------------------------------- model

/// A request that has just arrived.
pub open spec fn arrived(
    id: ExchangeId,
    connection: ConnectionId,
    method: Seq<char>,
    url: Seq<char>,
    received: Seq<(Seq<char>, Seq<u8>)>,
    secure: Option<(Seq<char>, Seq<char>)>,
    now: Clock,
) -> FlowView {
    let request = RequestView {
        method,
        uri: url,
        headers: field_texts(received),
        is_connect: false,
    };
    FlowView {
        exchange: ExchangeView {
            request: Some(request),
            ..fresh(id, connection, Protocol::Http1, now)
        },
        url,
        received,
        secure,
        outgoing: request,
        stage: StageView::Received,
    }
}

/// The request with what was kept of its body on record.
pub open spec fn with_request_body(f: FlowView, body: Option<Seq<u8>>) -> FlowView {
    FlowView { exchange: ExchangeView { request_body: body, ..f.exchange }, ..f }
}

/// What interceptors know of the request.
pub open spec fn context(f: FlowView) -> CtxView {
    CtxView { exchange_id: f.exchange.id.0, url: f.url }
}

/// The end: the exchange is recorded in its last state and the client is answered.
pub open spec fn ended(
    f: FlowView,
    state: ExchangeState,
    action: FlowActionView,
    now: Clock,
) -> (FlowView, StepView) {
    let e = finished(f.exchange, state, now);
    (
        FlowView { exchange: e, stage: StageView::Done, ..f },
        StepView { event: Some(EventView::ExchangeCompleted(e)), action },
    )
}

/// Where the request is to go over TLS. One that was decrypted goes where the client meant it,
/// unless a tool changed that; one that was not goes over TLS only where a tool has sent it there.
pub open spec fn secure_target(f: FlowView) -> Option<TargetView> {
    match f.secure {
        Some((authority, path)) => if f.outgoing.uri == https_uri(authority, path) {
            Some(target_at(authority, path))
        } else {
            target_of(f.outgoing.uri)
        },
        None => if f.outgoing.uri == f.url {
            None
        } else {
            target_of(f.outgoing.uri)
        },
    }
}

/// The request goes to the origin, as the tools have left it.
pub open spec fn forwarded(f: FlowView) -> (FlowView, StepView) {
    let sent = outgoing(f.received, f.outgoing.headers);
    (
        FlowView {
            exchange: ExchangeView { state: ExchangeState::InProgress, ..f.exchange },
            stage: StageView::Sent,
            ..f
        },
        StepView {
            event: None,
            action: FlowActionView::Forward {
                method: f.outgoing.method,
                uri: f.outgoing.uri,
                headers: match secure_target(f) {
                    Some(t) => origin_fields(sent, t.authority),
                    None => sent,
                },
                target: secure_target(f),
            },
        },
    )
}

/// What an optional hub says.
pub open spec fn hub_view(hub: Option<&BreakpointHub>) -> Option<HubView> {
    match hub {
        Some(h) => Some(h@),
        None => None,
    }
}

/// The hub holds the request, or an interceptor asked for it to be held and there is a hub.
pub open spec fn is_held(hub: Option<HubView>, action: ActionView, url: Seq<char>) -> bool {
    match hub {
        Some(h) => action is Hold || h.holds(url),
        None => false,
    }
}

/// What comes of a request when the pipeline has left it as `after` and asked for `action`.
pub open spec fn judged(
    f: FlowView,
    after: RequestView,
    action: ActionView,
    held: bool,
    now: Clock,
) -> (FlowView, StepView) {
    let g = FlowView { outgoing: after, ..f };
    match action {
        ActionView::ShortCircuit(r) => ended(
            g,
            ExchangeState::Blocked,
            FlowActionView::Reply(r),
            now,
        ),
        ActionView::Block { status } => ended(
            g,
            ExchangeState::Blocked,
            FlowActionView::Reply(empty_view(status)),
            now,
        ),
        ActionView::ServeFile(rule) => (
            FlowView { stage: StageView::Reading(rule), ..g },
            StepView { event: None, action: FlowActionView::ReadFile(rule.file) },
        ),
        _ => if held {
            let e = ExchangeView { state: ExchangeState::BreakpointHeld, ..g.exchange };
            (
                FlowView { exchange: e, stage: StageView::Held, ..g },
                StepView {
                    event: Some(EventView::BreakpointHit(e)),
                    action: FlowActionView::Wait,
                },
            )
        } else {
            forwarded(g)
        },
    }
}

/// What may come of a request that is sent through this chain, with this hub: the chain leaves it
/// in some way and asks for something, and that is carried out.
pub open spec fn intercepted<R: RequestInterceptor>(
    f: FlowView,
    chain: Seq<R>,
    hub: Option<HubView>,
    now: Clock,
    g: FlowView,
    step: StepView,
) -> bool {
    exists|after: RequestView, action: ActionView|
        {
            &&& #[trigger] request_run(chain, f.outgoing, context(f), after, action)
            &&& (g, step) == judged(f, after, action, is_held(hub, action, f.url), now)
        }
}

/// What comes of a request when its file has been read, or could not be.
pub open spec fn file_served(
    f: FlowView,
    read: Result<Seq<u8>, Seq<char>>,
    now: Clock,
) -> (FlowView, StepView) {
    ended(
        f,
        ExchangeState::Blocked,
        FlowActionView::Reply(file_response(f.stage->Reading_0, read)),
        now,
    )
}

/// What comes of a held request when the operator has decided.
pub open spec fn decided(f: FlowView, decision: BreakpointDecision, now: Clock) -> (
    FlowView,
    StepView,
) {
    match decision {
        BreakpointDecision::Continue => forwarded(f),
        BreakpointDecision::Drop => ended(
            f,
            ExchangeState::Blocked,
            FlowActionView::Reply(empty_view(403)),
            now,
        ),
    }
}

/// What comes of a request when the origin could not be asked.
pub open spec fn gave_up(f: FlowView, error: Seq<char>, now: Clock) -> (FlowView, StepView) {
    ended(
        FlowView { exchange: with_error(f.exchange, error), ..f },
        ExchangeState::Failed,
        FlowActionView::Reply(empty_view(502)),
        now,
    )
}

/// The origin's response, as the interceptors get it.
pub open spec fn origin_response(
    status: u16,
    headers: Seq<(Seq<char>, Seq<u8>)>,
    body: Option<Seq<u8>>,
) -> ResponseView {
    ResponseView {
        status,
        reason: None,
        headers: field_texts(headers),
        body: match body {
            Some(b) => b,
            None => Seq::empty(),
        },
    }
}

/// The request with the origin's response on record.
pub open spec fn recorded(
    f: FlowView,
    status: u16,
    headers: Seq<(Seq<char>, Seq<u8>)>,
    body: Option<Seq<u8>>,
) -> FlowView {
    FlowView {
        exchange: ExchangeView {
            response_status: Some(status),
            response_headers: field_texts(headers),
            response_content_type: headers::value_of(field_texts(headers), "content-type"@),
            response_body: body,
            ..f.exchange
        },
        ..f
    }
}

/// What comes of a request when the origin has answered, and the pipeline has left the response
/// as `after` and asked for `action`.
pub open spec fn answered(
    f: FlowView,
    status: u16,
    headers: Seq<(Seq<char>, Seq<u8>)>,
    body: Option<Seq<u8>>,
    after: ResponseView,
    action: ActionView,
    now: Clock,
) -> (FlowView, StepView) {
    let g = recorded(f, status, headers, body);
    match action {
        ActionView::ShortCircuit(r) => ended(
            g,
            ExchangeState::Blocked,
            FlowActionView::Reply(r),
            now,
        ),
        ActionView::Block { status } => ended(
            g,
            ExchangeState::Blocked,
            FlowActionView::Reply(empty_view(status)),
            now,
        ),
        ActionView::ServeFile(rule) => (
            FlowView { stage: StageView::Reading(rule), ..g },
            StepView { event: None, action: FlowActionView::ReadFile(rule.file) },
        ),
        _ => ended(
            g,
            ExchangeState::Complete,
            FlowActionView::Relay {
                status: after.status,
                headers: outgoing(headers, after.headers),
                body: match body {
                    Some(_) => Some(after.body),
                    None => None,
                },
            },
            now,
        ),
    }
}

/// What comes of a request when the head of the origin's response has come, and the pipeline has
/// left the response, without its body, as `after` and asked for `action`. The body is passed on
/// while it comes.
pub open spec fn headed(
    f: FlowView,
    status: u16,
    headers: Seq<(Seq<char>, Seq<u8>)>,
    after: ResponseView,
    action: ActionView,
    now: Clock,
) -> (FlowView, StepView) {
    if action is Continue || action is Hold {
        (
            FlowView { stage: StageView::Relaying, ..recorded(f, status, headers, None) },
            StepView {
                event: None,
                action: FlowActionView::Relay {
                    status: after.status,
                    headers: outgoing(headers, after.headers),
                    body: None,
                },
            },
        )
    } else {
        answered(f, status, headers, None, after, action, now)
    }
}

/// What may come of a request whose response is sent through this chain: the chain leaves it in
/// some way and asks for something, and that is carried out.
pub open spec fn passed_through<S: ResponseInterceptor>(
    f: FlowView,
    status: u16,
    headers: Seq<(Seq<char>, Seq<u8>)>,
    body: Option<Seq<u8>>,
    chain: Seq<S>,
    now: Clock,
    g: FlowView,
    step: StepView,
) -> bool {
    exists|after: ResponseView, action: ActionView|
        {
            &&& #[trigger] response_run(
                chain,
                origin_response(status, headers, body),
                context(f),
                after,
                action,
            )
            &&& (g, step) == answered(f, status, headers, body, after, action, now)
        }
}

/// As `passed_through`, for the head of a response whose body is still to come.
pub open spec fn head_passed_through<S: ResponseInterceptor>(
    f: FlowView,
    status: u16,
    headers: Seq<(Seq<char>, Seq<u8>)>,
    chain: Seq<S>,
    now: Clock,
    g: FlowView,
    step: StepView,
) -> bool {
    exists|after: ResponseView, action: ActionView|
        {
            &&& #[trigger] response_run(
                chain,
                origin_response(status, headers, None),
                context(f),
                after,
                action,
            )
            &&& (g, step) == headed(f, status, headers, after, action, now)
        }
}

/// What comes of a request when the body of the origin's response has been passed on. There is no
/// body if it was too large to keep, or broke off.
pub open spec fn passed_on(f: FlowView, body: Option<Seq<u8>>, now: Clock) -> (
    FlowView,
    StepView,
) {
    ended(
        FlowView { exchange: ExchangeView { response_body: body, ..f.exchange }, ..f },
        ExchangeState::Complete,
        FlowActionView::Rest,
        now,
    )
}

// ---------------------------------------------------------------- functions

impl Flow {
    fn arrive(
        id: ExchangeId,
        connection: ConnectionId,
        method: &str,
        url: String,
        received: Vec<(String, Vec<u8>)>,
        secure: Option<(String, String)>,
        now: Clock,
    ) -> (r: (Flow, ProxyEvent))
        ensures
            r.0@ == arrived(
                id,
                connection,
                method@,
                url@,
                raw_fields(received@),
                match secure {
                    Some((a, p)) => Some((a@, p@)),
                    None => None,
                },
                now,
            ),
            r.1@ == EventView::ExchangeStarted(r.0@.exchange),
    {
        let request = HttpRequest {
            method: method.to_string(),
            uri: url.clone(),
            headers: texts_of(&received),
            is_connect: false,
        };
        let mut exchange = Exchange::new(id, connection, Protocol::Http1, now);
        exchange.request = Some(request.clone());
        let event = ProxyEvent::ExchangeStarted(exchange.clone());
        (
            Flow { exchange, url, received, secure, outgoing: request, stage: Stage::Received },
            event,
        )
    }

    /// A plain request has arrived. The event is to be published.
    pub fn begin(
        id: ExchangeId,
        connection: ConnectionId,
        method: &str,
        uri: &str,
        received: Vec<(String, Vec<u8>)>,
        now: Clock,
    ) -> (r: (Flow, ProxyEvent))
        ensures
            r.0@ == arrived(id, connection, method@, uri@, raw_fields(received@), None, now),
            r.1@ == EventView::ExchangeStarted(r.0@.exchange),
    {
        Flow::arrive(id, connection, method, uri.to_string(), received, None, now)
    }

    /// A request has arrived inside a decrypted tunnel to `authority`. The event is to be
    /// published.
    pub fn begin_decrypted(
        id: ExchangeId,
        connection: ConnectionId,
        method: &str,
        authority: &str,
        path: &str,
        received: Vec<(String, Vec<u8>)>,
        now: Clock,
    ) -> (r: (Flow, ProxyEvent))
        ensures
            r.0@ == arrived(
                id,
                connection,
                method@,
                https_uri(authority@, path@),
                raw_fields(received@),
                Some((authority@, path@)),
                now,
            ),
            r.1@ == EventView::ExchangeStarted(r.0@.exchange),
    {
        let url = display_uri(authority, path);
        Flow::arrive(
            id,
            connection,
            method,
            url,
            received,
            Some((authority.to_string(), path.to_string())),
            now,
        )
    }

    /// Records what was kept of the request's body.
    pub fn set_request_body(&mut self, body: Option<bytes::Bytes>)
        ensures
            final(self)@ == with_request_body(old(self)@, opt_bytes(body)),
    {
        self.exchange.request_body = body;
    }

    fn end(&mut self, state: ExchangeState, action: FlowAction, now: Clock) -> (step: Step)
        ensures
            (final(self)@, step@) == ended(old(self)@, state, action@, now),
    {
        self.exchange.finish(state, now);
        self.stage = Stage::Done;
        Step { event: Some(ProxyEvent::ExchangeCompleted(self.exchange.clone())), action }
    }

    fn find_secure_target(&self) -> (r: Option<Target>)
        ensures
            opt_target(r) == secure_target(self@),
    {
        match &self.secure {
            Some((authority, path)) => {
                let uri = display_uri(authority.as_str(), path.as_str());
                if text::same(self.outgoing.uri.as_str(), uri.as_str()) {
                    Some(Target::at(authority.as_str(), path.as_str()))
                } else {
                    find_target(self.outgoing.uri.as_str())
                }
            },
            None => {
                if text::same(self.outgoing.uri.as_str(), self.url.as_str()) {
                    None
                } else {
                    find_target(self.outgoing.uri.as_str())
                }
            },
        }
    }

    fn forward(&mut self) -> (step: Step)
        ensures
            (final(self)@, step@) == forwarded(old(self)@),
    {
        let target = self.find_secure_target();
        let sent = outgoing_fields(&self.received, &self.outgoing.headers);
        let headers = match &target {
            Some(t) => fields_for_origin(&sent, t.authority.as_str()),
            None => sent,
        };
        self.exchange.state = ExchangeState::InProgress;
        self.stage = Stage::Sent;
        Step {
            event: None,
            action: FlowAction::Forward {
                method: self.outgoing.method.clone(),
                uri: self.outgoing.uri.clone(),
                headers,
                target,
            },
        }
    }

    /// Goes on with a request that the pipeline has left as `after`, with the wish `action`.
    pub fn judge(
        &mut self,
        after: HttpRequest,
        action: InterceptAction,
        held: bool,
        now: Clock,
    ) -> (step: Step)
        requires
            old(self)@.stage is Received,
        ensures
            (final(self)@, step@) == judged(old(self)@, after@, action@, held, now),
    {
        self.outgoing = after;
        match action {
            InterceptAction::ShortCircuit(r) => self.end(
                ExchangeState::Blocked,
                FlowAction::Reply(r),
                now,
            ),
            InterceptAction::Block { status } => self.end(
                ExchangeState::Blocked,
                FlowAction::Reply(HttpResponse::empty(status)),
                now,
            ),
            InterceptAction::ServeFile(rule) => {
                let file = rule.file.clone();
                self.stage = Stage::Reading(rule);
                Step { event: None, action: FlowAction::ReadFile(file) }
            },
            _ => {
                if held {
                    self.exchange.state = ExchangeState::BreakpointHeld;
                    self.stage = Stage::Held;
                    Step {
                        event: Some(ProxyEvent::BreakpointHit(self.exchange.clone())),
                        action: FlowAction::Wait,
                    }
                } else {
                    self.forward()
                }
            },
        }
    }

    /// Sends a request that has arrived through the pipeline, and says what to do next.
    pub fn intercept<R: RequestInterceptor, S: ResponseInterceptor>(
        &mut self,
        pipeline: &Pipeline<R, S>,
        hub: Option<&BreakpointHub>,
        now: Clock,
    ) -> (step: Step)
        requires
            old(self)@.stage is Received,
        ensures
            intercepted(
                old(self)@,
                pipeline.requests(),
                hub_view(hub),
                now,
                final(self)@,
                step@,
            ),
    {
        let ctx = ExchangeCtx { exchange_id: self.exchange.id.0, url: self.url.clone() };
        let mut model = self.outgoing.clone();
        let action = pipeline.process_request(&mut model, &ctx);
        let asked: bool = match &action {
            InterceptAction::Hold => true,
            _ => false,
        };
        let held: bool = match hub {
            Some(h) => asked || h.should_hold(self.url.as_str()),
            None => false,
        };
        assert(request_run(pipeline.requests(), self@.outgoing, context(self@), model@, action@));
        assert(held == is_held(hub_view(hub), action@, self@.url));
        self.judge(model, action, held, now)
    }

    /// Goes on with a request whose file has been read, or could not be.
    pub fn serve_file(&mut self, read: Result<bytes::Bytes, String>, now: Clock) -> (step: Step)
        requires
            old(self)@.stage is Reading,
        ensures
            (final(self)@, step@) == file_served(old(self)@, read_view(read), now),
    {
        let response = match &self.stage {
            Stage::Reading(rule) => rule.respond(read),
            _ => HttpResponse::empty(500),
        };
        self.end(ExchangeState::Blocked, FlowAction::Reply(response), now)
    }

    /// Goes on with a held request on which the operator has decided.
    pub fn decide(&mut self, decision: BreakpointDecision, now: Clock) -> (step: Step)
        requires
            old(self)@.stage is Held,
        ensures
            (final(self)@, step@) == decided(old(self)@, decision, now),
    {
        match decision {
            BreakpointDecision::Continue => self.forward(),
            BreakpointDecision::Drop => self.end(
                ExchangeState::Blocked,
                FlowAction::Reply(HttpResponse::empty(403)),
                now,
            ),
        }
    }

    /// Goes on with a request of which the origin could not be asked.
    pub fn give_up(&mut self, failure: OriginFailure, now: Clock) -> (step: Step)
        requires
            old(self)@.stage is Sent,
        ensures
            (final(self)@, step@) == gave_up(old(self)@, failure.words(), now),
    {
        self.exchange.error = Some(failure.message());
        self.end(ExchangeState::Failed, FlowAction::Reply(HttpResponse::empty(502)), now)
    }

    /// Goes on with a request that the origin has answered with `status`, `received` and `body`,
    /// when the pipeline has left the response as `after`, with the wish `action`.
    pub fn settle(
        &mut self,
        status: u16,
        received: Vec<(String, Vec<u8>)>,
        body: Option<bytes::Bytes>,
        after: HttpResponse,
        action: InterceptAction,
        now: Clock,
    ) -> (step: Step)
        requires
            old(self)@.stage is Sent,
        ensures
            (final(self)@, step@) == answered(
                old(self)@,
                status,
                raw_fields(received@),
                opt_bytes(body),
                after@,
                action@,
                now,
            ),
    {
        let texts = texts_of(&received);
        self.exchange.response_status = Some(status);
        self.exchange.response_content_type = headers::find_header(&texts, "content-type");
        self.exchange.response_headers = texts;
        let kept: bool = body.is_some();
        self.exchange.response_body = body;
        match action {
            InterceptAction::ShortCircuit(r) => self.end(
                ExchangeState::Blocked,
                FlowAction::Reply(r),
                now,
            ),
            InterceptAction::Block { status } => self.end(
                ExchangeState::Blocked,
                FlowAction::Reply(HttpResponse::empty(status)),
                now,
            ),
            InterceptAction::ServeFile(rule) => {
                let file = rule.file.clone();
                self.stage = Stage::Reading(rule);
                Step { event: None, action: FlowAction::ReadFile(file) }
            },
            _ => {
                let headers = outgoing_fields(&received, &after.headers);
                let body = if kept {
                    Some(after.body)
                } else {
                    None
                };
                self.end(
                    ExchangeState::Complete,
                    FlowAction::Relay { status: after.status, headers, body },
                    now,
                )
            },
        }
    }

    /// The origin has answered: records the response, sends it through the pipeline, and says
    /// what to do next. There is no body if it was too large to keep.
    pub fn answer<R: RequestInterceptor, S: ResponseInterceptor>(
        &mut self,
        status: u16,
        received: Vec<(String, Vec<u8>)>,
        body: Option<bytes::Bytes>,
        pipeline: &Pipeline<R, S>,
        now: Clock,
    ) -> (step: Step)
        requires
            old(self)@.stage is Sent,
        ensures
            passed_through(
                old(self)@,
                status,
                raw_fields(received@),
                opt_bytes(body),
                pipeline.responses(),
                now,
                final(self)@,
                step@,
            ),
    {
        let ctx = ExchangeCtx { exchange_id: self.exchange.id.0, url: self.url.clone() };
        let shown = match &body {
            Some(b) => b.clone(),
            None => bytes_from(Vec::new()),
        };
        let mut model = HttpResponse {
            status,
            reason: None,
            headers: texts_of(&received),
            body: shown,
        };
        assert(model@ == origin_response(status, raw_fields(received@), opt_bytes(body)));
        let action = pipeline.process_response(&mut model, &ctx);
        assert(response_run(
            pipeline.responses(),
            origin_response(status, raw_fields(received@), opt_bytes(body)),
            context(self@),
            model@,
            action@,
        ));
        self.settle(status, received, body, model, action, now)
    }

    /// Goes on with a request of which the origin has sent the head of its response, `status` and
    /// `received`, when the pipeline has left it as `after`, with the wish `action`.
    pub fn relay(
        &mut self,
        status: u16,
        received: Vec<(String, Vec<u8>)>,
        after: HttpResponse,
        action: InterceptAction,
        now: Clock,
    ) -> (step: Step)
        requires
            old(self)@.stage is Sent,
        ensures
            (final(self)@, step@) == headed(
                old(self)@,
                status,
                raw_fields(received@),
                after@,
                action@,
                now,
            ),
    {
        let pass: bool = match &action {
            InterceptAction::Continue => true,
            InterceptAction::Hold => true,
            _ => false,
        };
        if !pass {
            return self.settle(status, received, None, after, action, now);
        }
        let texts = texts_of(&received);
        self.exchange.response_status = Some(status);
        self.exchange.response_content_type = headers::find_header(&texts, "content-type");
        self.exchange.response_headers = texts;
        self.exchange.response_body = None;
        self.stage = Stage::Relaying;
        let headers = outgoing_fields(&received, &after.headers);
        Step {
            event: None,
            action: FlowAction::Relay { status: after.status, headers, body: None },
        }
    }

    /// The head of the origin's response has come: records it, sends it through the pipeline
    /// without its body, and says what to do next. The body can be passed on while it comes;
    /// `finish` is for when it has.
    pub fn answer_head<R: RequestInterceptor, S: ResponseInterceptor>(
        &mut self,
        status: u16,
        received: Vec<(String, Vec<u8>)>,
        pipeline: &Pipeline<R, S>,
        now: Clock,
    ) -> (step: Step)
        requires
            old(self)@.stage is Sent,
        ensures
            head_passed_through(
                old(self)@,
                status,
                raw_fields(received@),
                pipeline.responses(),
                now,
                final(self)@,
                step@,
            ),
    {
        let ctx = ExchangeCtx { exchange_id: self.exchange.id.0, url: self.url.clone() };
        let mut model = HttpResponse {
            status,
            reason: None,
            headers: texts_of(&received),
            body: bytes_from(Vec::new()),
        };
        assert(model@ == origin_response(status, raw_fields(received@), None));
        let action = pipeline.process_response(&mut model, &ctx);
        assert(response_run(
            pipeline.responses(),
            origin_response(status, raw_fields(received@), None),
            context(self@),
            model@,
            action@,
        ));
        self.relay(status, received, model, action, now)
    }

    /// The body of the origin's response has been passed on: records what was kept of it. There
    /// is none if it was too large to keep, or broke off.
    pub fn finish(&mut self, body: Option<bytes::Bytes>, now: Clock) -> (step: Step)
        requires
            old(self)@.stage is Relaying,
        ensures
            (final(self)@, step@) == passed_on(old(self)@, opt_bytes(body), now),
    {
        self.exchange.response_body = body;
        self.end(ExchangeState::Complete, FlowAction::Rest, now)
    }
}

// ---------------------------------------------------------------- laws

/// What holds of a request at every point of its way: its state is that of its stage, an error is
/// on record if and only if it failed, and it has ended if and only if it was answered.
pub open spec fn sound(f: FlowView) -> bool {
    let e = f.exchange;
    &&& e.request is Some
    &&& !e.request->0.is_connect
    &&& e.timing.started_at is Some
    &&& e.started_wall is Some
    &&& e.timing.completed_at is Some <==> f.stage is Done
    &&& e.error is Some <==> e.state is Failed
    &&& match f.stage {
        StageView::Held => e.state is BreakpointHeld,
        StageView::Done => e.state is Complete || e.state is Failed || e.state is Blocked,
        _ => e.state is InProgress,
    }
}

/// How many stages a request can still come to.
pub open spec fn ahead_of(stage: StageView) -> nat {
    match stage {
        StageView::Received => 4,
        StageView::Held => 3,
        StageView::Sent => 2,
        StageView::Reading(_) => 1,
        StageView::Relaying => 1,
        StageView::Done => 0,
    }
}

/// The client is answered with this action.
pub open spec fn answers(a: FlowActionView) -> bool {
    a is Reply || a is Relay
}

/// What holds of every step: it keeps to the rules of the way and comes nearer to its end, it
/// leaves alone which exchange this is and what was asked. The client is answered once: when the
/// exchange ends, or when a response is relayed that is still coming. That the exchange has ended
/// is announced if and only if it has.
pub open spec fn in_order(before: FlowView, after: FlowView, step: StepView) -> bool {
    &&& sound(after)
    &&& ahead_of(after.stage) < ahead_of(before.stage)
    &&& after.exchange.id == before.exchange.id
    &&& after.exchange.connection_id == before.exchange.connection_id
    &&& after.exchange.request == before.exchange.request
    &&& after.url == before.url
    &&& after.received == before.received
    &&& answers(step.action) <==> !(before.stage is Relaying) && (after.stage is Done
        || after.stage is Relaying)
    &&& step.action is Rest <==> before.stage is Relaying
    &&& after.stage is Done <==> step.event == Some(EventView::ExchangeCompleted(after.exchange))
    &&& step.event matches Some(EventView::ExchangeCompleted(e)) ==> e == after.exchange
    &&& step.event is None || step.event->0 is ExchangeCompleted || step.event->0 is BreakpointHit
    &&& step.action is Wait <==> after.stage is Held
    &&& step.action is Wait <==> step.event == Some(EventView::BreakpointHit(after.exchange))
    &&& step.action is ReadFile <==> after.stage is Reading
    &&& step.action is Forward <==> after.stage is Sent
}

/// A request that has arrived is sound.
pub proof fn law_arrival_is_sound(
    id: ExchangeId,
    connection: ConnectionId,
    method: Seq<char>,
    url: Seq<char>,
    received: Seq<(Seq<char>, Seq<u8>)>,
    secure: Option<(Seq<char>, Seq<char>)>,
    now: Clock,
)
    ensures
        sound(arrived(id, connection, method, url, received, secure, now)),
{
}

/// Whatever the pipeline asks for, the step is in order.
pub proof fn law_judging_is_in_order(
    f: FlowView,
    after: RequestView,
    action: ActionView,
    held: bool,
    now: Clock,
)
    requires
        sound(f),
        f.stage is Received,
    ensures
        in_order(
            f,
            judged(f, after, action, held, now).0,
            judged(f, after, action, held, now).1,
        ),
{
}

/// Serving a file is in order, and ends the exchange.
pub proof fn law_serving_a_file_is_in_order(
    f: FlowView,
    read: Result<Seq<u8>, Seq<char>>,
    now: Clock,
)
    requires
        sound(f),
        f.stage is Reading,
    ensures
        in_order(f, file_served(f, read, now).0, file_served(f, read, now).1),
        file_served(f, read, now).0.stage is Done,
{
}

/// Carrying out the operator's decision is in order.
pub proof fn law_deciding_is_in_order(f: FlowView, decision: BreakpointDecision, now: Clock)
    requires
        sound(f),
        f.stage is Held,
    ensures
        in_order(f, decided(f, decision, now).0, decided(f, decision, now).1),
{
}

/// Giving up is in order; the exchange has failed, with the error on record.
pub proof fn law_giving_up_is_in_order(f: FlowView, error: Seq<char>, now: Clock)
    requires
        sound(f),
        f.stage is Sent,
    ensures
        in_order(f, gave_up(f, error, now).0, gave_up(f, error, now).1),
        gave_up(f, error, now).0.exchange.state is Failed,
        gave_up(f, error, now).0.exchange.error == Some(error),
{
}

/// Whatever the origin answers and the pipeline asks for, the step is in order.
pub proof fn law_answering_is_in_order(
    f: FlowView,
    status: u16,
    headers: Seq<(Seq<char>, Seq<u8>)>,
    body: Option<Seq<u8>>,
    after: ResponseView,
    action: ActionView,
    now: Clock,
)
    requires
        sound(f),
        f.stage is Sent,
    ensures
        in_order(
            f,
            answered(f, status, headers, body, after, action, now).0,
            answered(f, status, headers, body, after, action, now).1,
        ),
        answered(f, status, headers, body, after, action, now).0.exchange.response_status
            == Some(status),
        answered(f, status, headers, body, after, action, now).0.exchange.response_body == body,
{
}

/// Whatever head the origin sends and the pipeline asks for, the step is in order.
pub proof fn law_heading_is_in_order(
    f: FlowView,
    status: u16,
    headers: Seq<(Seq<char>, Seq<u8>)>,
    after: ResponseView,
    action: ActionView,
    now: Clock,
)
    requires
        sound(f),
        f.stage is Sent,
    ensures
        in_order(
            f,
            headed(f, status, headers, after, action, now).0,
            headed(f, status, headers, after, action, now).1,
        ),
{
}

/// The end of a body that is passed on is in order, and ends the exchange.
pub proof fn law_passing_on_is_in_order(f: FlowView, body: Option<Seq<u8>>, now: Clock)
    requires
        sound(f),
        f.stage is Relaying,
    ensures
        in_order(f, passed_on(f, body, now).0, passed_on(f, body, now).1),
        passed_on(f, body, now).0.stage is Done,
        passed_on(f, body, now).0.exchange.state is Complete,
        passed_on(f, body, now).0.exchange.response_body == body,
{
}

/// With tools in the pipeline, passing a body on while it comes is as good as waiting for it: the
/// client gets the same status and headers, and the origin's body; and the same is recorded and
/// announced.
pub proof fn law_passing_on_is_as_waiting(
    f: FlowView,
    status: u16,
    headers: Seq<(Seq<char>, Seq<u8>)>,
    body: Seq<u8>,
    tools: Seq<ToolView>,
    before: Clock,
    now: Clock,
)
    requires
        f.stage is Sent,
    ensures
        ({
            let head = tools_response(tools, f.url, origin_response(status, headers, None));
            let whole = tools_response(
                tools,
                f.url,
                origin_response(status, headers, Some(body)),
            );
            let first = headed(f, status, headers, head, ActionView::Continue, before);
            let last = passed_on(first.0, Some(body), now);
            let once = answered(
                f,
                status,
                headers,
                Some(body),
                whole,
                ActionView::Continue,
                now,
            );
            &&& last.0 == once.0
            &&& last.1.event == once.1.event
            &&& first.1.action == (FlowActionView::Relay {
                status: once.1.action->Relay_status,
                headers: once.1.action->Relay_headers,
                body: None,
            })
            &&& once.1.action->Relay_body == Some(body)
        }),
{
    let bare = origin_response(status, headers, None);
    law_tools_leave_bodies(tools, f.url, bare, body);
    assert(origin_response(status, headers, Some(body)) == (ResponseView { body, ..bare }));
}

/// A request that is blocked, or answered in the origin's place, never reaches the origin.
pub proof fn law_blocked_is_not_forwarded(
    f: FlowView,
    after: RequestView,
    action: ActionView,
    held: bool,
    now: Clock,
)
    requires
        action is Block || action is ShortCircuit || action is ServeFile,
    ensures
        !(judged(f, after, action, held, now).1.action is Forward),
        !(action is ServeFile) ==> judged(f, after, action, held, now).0.exchange.state is Blocked,
{
}

/// A request that waits and is then let through is sent just as if it had not waited.
pub proof fn law_let_through_is_as_if_not_held(
    f: FlowView,
    after: RequestView,
    action: ActionView,
    now: Clock,
    later: Clock,
)
    requires
        action is Continue || action is Hold,
    ensures
        decided(judged(f, after, action, true, now).0, BreakpointDecision::Continue, later)
            == judged(f, after, action, false, now),
{
}

/// A response that the pipeline lets pass unchanged reaches the client as the origin sent it.
pub proof fn law_unchanged_response_is_relayed(
    f: FlowView,
    status: u16,
    headers: Seq<(Seq<char>, Seq<u8>)>,
    body: Option<Seq<u8>>,
    now: Clock,
)
    ensures
        answered(
            f,
            status,
            headers,
            body,
            origin_response(status, headers, body),
            ActionView::Continue,
            now,
        ).1.action == (FlowActionView::Relay { status, headers, body }),
{
    law_unchanged_fields_pass(headers);
}

/// A request that was not decrypted, and that no tool has sent elsewhere, does not go over TLS,
/// whatever its URL says.
pub proof fn law_plain_stays_plain(f: FlowView)
    requires
        f.secure is None,
        f.outgoing.uri == f.url,
    ensures
        forwarded(f).1.action matches FlowActionView::Forward { target, uri, .. } && target is None
            && uri == f.url,
{
}

/// What has arrived is on record as it came: which exchange it is, what was asked, and when; and
/// it is what the interceptors get to see.
pub proof fn law_arrival_is_recorded(
    id: ExchangeId,
    connection: ConnectionId,
    method: Seq<char>,
    url: Seq<char>,
    received: Seq<(Seq<char>, Seq<u8>)>,
    secure: Option<(Seq<char>, Seq<char>)>,
    now: Clock,
)
    ensures
        ({
            let f = arrived(id, connection, method, url, received, secure, now);
            let e = f.exchange;
            &&& e.id == id
            &&& e.connection_id == connection
            &&& e.protocol is Http1
            &&& e.state is InProgress
            &&& e.timing.started_at == Some(now.monotonic)
            &&& e.started_wall == Some(now.wall)
            &&& e.request is Some
            &&& e.request->0.method == method
            &&& e.request->0.uri == url
            &&& e.request->0.headers == field_texts(received)
            &&& e.response_status is None
            &&& e.request_body is None
            &&& e.response_body is None
            &&& f.outgoing == e.request->0
            &&& f.received == received
            &&& f.secure == secure
            &&& f.url == url
            &&& f.stage is Received
            &&& context(f).exchange_id == id.0
            &&& context(f).url == url
        }),
{
}

/// A decrypted request whose URI no tool has changed goes to the authority of its tunnel and asks
/// for the path and query just as the client sent them, with the method that the tools have left.
pub proof fn law_decrypted_goes_where_it_was_meant(
    id: ExchangeId,
    connection: ConnectionId,
    method: Seq<char>,
    authority: Seq<char>,
    path: Seq<char>,
    received: Seq<(Seq<char>, Seq<u8>)>,
    now: Clock,
    after: RequestView,
    action: ActionView,
    later: Clock,
)
    requires
        after.uri == "https://"@ + authority + path,
        action is Continue || action is Hold,
    ensures
        ({
            let f = arrived(
                id,
                connection,
                method,
                https_uri(authority, path),
                received,
                Some((authority, path)),
                now,
            );
            let step = judged(f, after, action, false, later).1;
            &&& f.url == "https://"@ + authority + path
            &&& step.action is Forward
            &&& step.action->Forward_target is Some
            &&& step.action->Forward_target->0.authority == authority
            &&& step.action->Forward_target->0.path == path
            &&& (
                step.action->Forward_target->0.host,
                step.action->Forward_target->0.port,
            ) == host_port(authority)
            &&& step.action->Forward_uri == "https://"@ + authority + path
            &&& step.action->Forward_method == after.method
        }),
{
}

/// A request that the pipeline lets pass unchanged is forwarded as it came: with the method, the
/// URI and the headers that arrived. One that was decrypted has the origin named in its headers.
pub proof fn law_unchanged_request_is_forwarded(
    id: ExchangeId,
    connection: ConnectionId,
    method: Seq<char>,
    url: Seq<char>,
    received: Seq<(Seq<char>, Seq<u8>)>,
    authority: Seq<char>,
    path: Seq<char>,
    now: Clock,
    later: Clock,
)
    ensures
        ({
            let f = arrived(id, connection, method, url, received, None, now);
            judged(f, f.outgoing, ActionView::Continue, false, later).1.action
                == (FlowActionView::Forward {
                method,
                uri: url,
                headers: received,
                target: None,
            })
        }),
        ({
            let uri = "https://"@ + authority + path;
            let f = arrived(
                id,
                connection,
                method,
                uri,
                received,
                Some((authority, path)),
                now,
            );
            judged(f, f.outgoing, ActionView::Continue, false, later).1.action
                == (FlowActionView::Forward {
                method,
                uri,
                headers: origin_fields(received, authority),
                target: Some(target_at(authority, path)),
            })
        }),
{
    law_unchanged_fields_pass(received);
}

/// What is sent to the origin is what the tools have left: their method, their URI and their
/// headers; and nothing is announced.
pub proof fn law_sent_as_the_tools_left_it(
    f: FlowView,
    after: RequestView,
    action: ActionView,
    now: Clock,
)
    requires
        action is Continue || action is Hold,
    ensures
        ({
            let step = judged(f, after, action, false, now).1;
            let sent = outgoing(f.received, after.headers);
            &&& step.event is None
            &&& step.action is Forward
            &&& step.action->Forward_method == after.method
            &&& step.action->Forward_uri == after.uri
            &&& step.action->Forward_target is None ==> step.action->Forward_headers == sent
            &&& step.action->Forward_target is Some ==> step.action->Forward_headers
                == origin_fields(sent, step.action->Forward_target->0.authority)
        }),
{
}

/// A request that a tool has sent elsewhere goes over TLS if and only if its new URI says so, and
/// then to the origin and the path that the URI names.
pub proof fn law_sent_where_the_tools_say(
    f: FlowView,
    after: RequestView,
    action: ActionView,
    now: Clock,
    host: Seq<char>,
    tail: Seq<char>,
)
    requires
        action is Continue || action is Hold,
        after.uri != f.url,
        f.secure matches Some(s) ==> f.url == "https://"@ + s.0 + s.1,
        !host.contains('/'),
    ensures
        ({
            let to = judged(f, after, action, false, now).1.action->Forward_target;
            &&& to is Some <==> "https://"@.is_prefix_of(after.uri)
            &&& after.uri == "https://"@ + host + seq!['/'] + tail ==> to is Some
                && to->0.authority == host && to->0.path == seq!['/'] + tail
            &&& after.uri == "https://"@ + host ==> to is Some && to->0.authority == host
                && to->0.path == seq!['/']
        }),
{
    law_target_of(host, tail, after.uri);
}

/// A request that is answered in the origin's place gets that answer: the response of an
/// interceptor, or an empty one of the status that it asked for. The exchange is announced as
/// blocked, and as ended now.
pub proof fn law_answered_in_its_place(
    f: FlowView,
    after: RequestView,
    response: ResponseView,
    status: u16,
    held: bool,
    now: Clock,
)
    ensures
        ({
            let given = judged(f, after, ActionView::ShortCircuit(response), held, now);
            let bare = judged(f, after, ActionView::Block { status }, held, now);
            &&& given.1.action == FlowActionView::Reply(response)
            &&& bare.1.action is Reply
            &&& bare.1.action->Reply_0.status == status
            &&& bare.1.action->Reply_0.headers.len() == 0
            &&& bare.1.action->Reply_0.body.len() == 0
            &&& given.0 == bare.0
            &&& given.0.exchange.state is Blocked
            &&& given.0.exchange.timing.completed_at == Some(now.monotonic)
            &&& given.1.event == Some(EventView::ExchangeCompleted(given.0.exchange))
            &&& bare.1.event == given.1.event
        }),
{
}

/// A request that a file stands for is answered with what its rule makes of that file.
pub proof fn law_answered_with_its_file(
    f: FlowView,
    after: RequestView,
    rule: MapLocalView,
    read: Result<Seq<u8>, Seq<char>>,
    held: bool,
    now: Clock,
    later: Clock,
)
    ensures
        ({
            let first = judged(f, after, ActionView::ServeFile(rule), held, now);
            let last = file_served(first.0, read, later);
            &&& first.1.action == FlowActionView::ReadFile(rule.file)
            &&& first.1.event is None
            &&& last.1.action == FlowActionView::Reply(file_response(rule, read))
            &&& last.0.exchange.state is Blocked
            &&& last.0.exchange.timing.completed_at == Some(later.monotonic)
            &&& last.1.event == Some(EventView::ExchangeCompleted(last.0.exchange))
        }),
{
}

/// A request that is held waits, and that is announced; if the operator refuses it, it is answered
/// with an empty response of status 403 and recorded as blocked.
pub proof fn law_held_until_decided(
    f: FlowView,
    after: RequestView,
    action: ActionView,
    now: Clock,
    later: Clock,
)
    requires
        action is Continue || action is Hold,
    ensures
        ({
            let first = judged(f, after, action, true, now);
            let last = decided(first.0, BreakpointDecision::Drop, later);
            &&& first.1.action is Wait
            &&& first.1.event == Some(EventView::BreakpointHit(first.0.exchange))
            &&& first.0.exchange.state is BreakpointHeld
            &&& first.0.exchange.timing == f.exchange.timing
            &&& same_record(first.0.exchange, f.exchange)
            &&& last.1.action is Reply
            &&& last.1.action->Reply_0.status == 403
            &&& last.1.action->Reply_0.headers.len() == 0
            &&& last.1.action->Reply_0.body.len() == 0
            &&& last.0.exchange.state is Blocked
            &&& last.0.exchange.timing.completed_at == Some(later.monotonic)
            &&& same_record(last.0.exchange, f.exchange)
        }),
{
}

/// Requests are held where there is a hub, and there if an interceptor asks for it or the URL
/// contains what the hub looks for while it is on.
pub proof fn law_when_held(
    hub: HubView,
    action: ActionView,
    url: Seq<char>,
    a: Seq<char>,
    b: Seq<char>,
)
    ensures
        !is_held(None, action, url),
        is_held(Some(hub), ActionView::Hold, url),
        hub.enabled && hub.pattern.len() > 0 ==> is_held(Some(hub), action, a + hub.pattern + b),
        !(action is Hold) && (!hub.enabled || hub.pattern.len() == 0) ==> !is_held(
            Some(hub),
            action,
            url,
        ),
        !(action is Hold) && is_held(Some(hub), action, url) ==> exists|
            x: Seq<char>,
            y: Seq<char>,
        | url == #[trigger] (x + hub.pattern + y),
{
    text::law_has_text(a, hub.pattern, b, url);
}

/// A request of which the origin could not be asked is answered with an empty response of status
/// 502; the failure is on record with the error.
pub proof fn law_giving_up_is_told(f: FlowView, error: Seq<char>, now: Clock)
    ensures
        ({
            let end = gave_up(f, error, now);
            &&& end.1.action is Reply
            &&& end.1.action->Reply_0.status == 502
            &&& end.1.action->Reply_0.headers.len() == 0
            &&& end.1.action->Reply_0.body.len() == 0
            &&& end.0.exchange.state is Failed
            &&& end.0.exchange.error == Some(error)
            &&& end.0.exchange.timing.completed_at == Some(now.monotonic)
            &&& same_record(end.0.exchange, f.exchange)
            &&& end.1.event == Some(EventView::ExchangeCompleted(end.0.exchange))
        }),
{
}

/// The words for a failure end with the error, behind what was being done; an error of the exchange
/// itself stands alone.
pub proof fn law_failure_in_words(e: String)
    ensures
        OriginFailure::Connect(e).words() == "origin connect: "@ + e@,
        OriginFailure::ServerName(e).words() == "bad server name: "@ + e@,
        OriginFailure::Tls(e).words() == "origin TLS handshake: "@ + e@,
        OriginFailure::Handshake(e).words() == "origin http1 handshake: "@ + e@,
        OriginFailure::Exchange(e).words() == e@,
{
}

/// What the origin answers is on record as it came: the status, the headers, the first content
/// type among them, and the body as far as it was kept. The interceptors see the same.
pub proof fn law_answer_is_recorded(
    f: FlowView,
    status: u16,
    headers: Seq<(Seq<char>, Seq<u8>)>,
    body: Option<Seq<u8>>,
    after: ResponseView,
    action: ActionView,
    now: Clock,
)
    ensures
        ({
            let e = answered(f, status, headers, body, after, action, now).0.exchange;
            let seen = origin_response(status, headers, body);
            &&& e.response_status == Some(status)
            &&& e.response_headers == field_texts(headers)
            &&& e.response_content_type == headers::value_of(
                field_texts(headers),
                "content-type"@,
            )
            &&& e.response_body == body
            &&& e.request == f.exchange.request
            &&& e.request_body == f.exchange.request_body
            &&& seen.status == status
            &&& seen.headers == field_texts(headers)
            &&& body is Some ==> seen.body == body->0
            &&& body is None ==> seen.body.len() == 0
        }),
        ({
            let e = headed(f, status, headers, after, action, now).0.exchange;
            &&& e.response_status == Some(status)
            &&& e.response_headers == field_texts(headers)
            &&& e.response_content_type == headers::value_of(
                field_texts(headers),
                "content-type"@,
            )
            &&& e.response_body is None
        }),
{
}

/// The client gets the response as the tools have left it: their status, their headers, and their
/// body where there is one; and the exchange is announced as complete.
pub proof fn law_answered_as_the_tools_left_it(
    f: FlowView,
    status: u16,
    headers: Seq<(Seq<char>, Seq<u8>)>,
    body: Option<Seq<u8>>,
    after: ResponseView,
    action: ActionView,
    now: Clock,
)
    requires
        action is Continue || action is Hold,
    ensures
        ({
            let end = answered(f, status, headers, body, after, action, now);
            &&& end.1.action is Relay
            &&& end.1.action->Relay_status == after.status
            &&& end.1.action->Relay_headers == outgoing(headers, after.headers)
            &&& body is Some ==> end.1.action->Relay_body == Some(after.body)
            &&& body is None ==> end.1.action->Relay_body is None
            &&& end.0.exchange.state is Complete
            &&& end.0.exchange.timing.completed_at == Some(now.monotonic)
            &&& end.1.event == Some(EventView::ExchangeCompleted(end.0.exchange))
        }),
        ({
            let step = headed(f, status, headers, after, action, now).1;
            &&& step.action is Relay
            &&& step.action->Relay_status == after.status
            &&& step.action->Relay_headers == outgoing(headers, after.headers)
            &&& step.action->Relay_body is None
            &&& step.event is None
        }),
{
}

/// A response that an interceptor replaces does not reach the client: it gets the interceptor's, or
/// an empty one of the status that it asked for, or a file.
pub proof fn law_response_is_replaced(
    f: FlowView,
    origin: u16,
    headers: Seq<(Seq<char>, Seq<u8>)>,
    body: Option<Seq<u8>>,
    after: ResponseView,
    response: ResponseView,
    status: u16,
    rule: MapLocalView,
    read: Result<Seq<u8>, Seq<char>>,
    now: Clock,
)
    ensures
        ({
            let given = answered(
                f,
                origin,
                headers,
                body,
                after,
                ActionView::ShortCircuit(response),
                now,
            );
            let bare = answered(f, origin, headers, body, after, ActionView::Block { status }, now);
            let file = answered(f, origin, headers, body, after, ActionView::ServeFile(rule), now);
            &&& given.1.action == FlowActionView::Reply(response)
            &&& given.0.exchange.state is Blocked
            &&& bare.1.action is Reply
            &&& bare.1.action->Reply_0.status == status
            &&& bare.1.action->Reply_0.headers.len() == 0
            &&& bare.1.action->Reply_0.body.len() == 0
            &&& bare.0 == given.0
            &&& file.1.action == FlowActionView::ReadFile(rule.file)
            &&& file_served(file.0, read, now).1.action == FlowActionView::Reply(
                file_response(rule, read),
            )
            &&& headed(f, origin, headers, after, ActionView::ShortCircuit(response), now).1.action
                == given.1.action
            &&& headed(f, origin, headers, after, ActionView::Block { status }, now).1.action
                == bare.1.action
            &&& headed(f, origin, headers, after, ActionView::ServeFile(rule), now).1.action
                == file.1.action
        }),
{
}

/// When a body has been passed on, what was kept of it is on record with the end of the exchange,
/// and nothing else has changed.
pub proof fn law_passed_on_is_recorded(f: FlowView, body: Option<Seq<u8>>, now: Clock)
    ensures
        ({
            let end = passed_on(f, body, now);
            let e = end.0.exchange;
            &&& e.response_body == body
            &&& e.state is Complete
            &&& e.timing.completed_at == Some(now.monotonic)
            &&& e.timing.started_at == f.exchange.timing.started_at
            &&& same_record(e, ExchangeView { response_body: body, ..f.exchange })
            &&& e.error == f.exchange.error
            &&& end.1.event == Some(EventView::ExchangeCompleted(e))
        }),
{
}

/// Recording the body of a request changes nothing else.
pub proof fn law_request_body_is_recorded(f: FlowView, body: Option<Seq<u8>>)
    ensures
        ({
            let g = with_request_body(f, body);
            &&& g.exchange.request_body == body
            &&& g.exchange.state == f.exchange.state
            &&& g.exchange.timing == f.exchange.timing
            &&& g.exchange.error == f.exchange.error
            &&& same_record(
                ExchangeView { request_body: f.exchange.request_body, ..g.exchange },
                f.exchange,
            )
            &&& g.outgoing == f.outgoing
            &&& g.received == f.received
            &&& g.secure == f.secure
            &&& g.url == f.url
            &&& g.stage == f.stage
        }),
{
}

/// What is carried out is what the tools of the pipeline decide, one after the other, on the
/// request as it arrived.
pub proof fn law_tools_are_obeyed(
    f: FlowView,
    chain: Seq<Tool>,
    hub: Option<HubView>,
    now: Clock,
    g: FlowView,
    step: StepView,
)
    requires
        intercepted(f, chain, hub, now, g, step),
    ensures
        ({
            let (after, action) = tools_request(tool_views(chain), f.outgoing);
            &&& hub is None ==> (g, step) == judged(f, after, action, false, now)
            &&& hub matches Some(h) ==> (g, step) == judged(
                f,
                after,
                action,
                action is Hold || h.holds(f.url),
                now,
            )
        }),
{
    let (after, action) = choose|after: RequestView, action: ActionView|
        {
            &&& #[trigger] request_run(chain, f.outgoing, context(f), after, action)
            &&& (g, step) == judged(f, after, action, is_held(hub, action, f.url), now)
        };
    law_tools_decide_requests(chain, f.outgoing, context(f), after, action);
}

/// A request to a URL that the Block List names is answered with the first rule that applies, and
/// goes no further, whatever else is set up and whether or not it would be held.
pub proof fn law_blocked_is_answered(
    f: FlowView,
    chain: Seq<Tool>,
    cfg: ConfigView,
    i: int,
    hub: Option<HubView>,
    now: Clock,
    g: FlowView,
    step: StepView,
)
    requires
        tool_views(chain) == request_tools(cfg),
        intercepted(f, chain, hub, now, g, step),
        0 <= i < cfg.block.len(),
        text::has_text(f.outgoing.uri, cfg.block[i].pattern),
        forall|k: int|
            0 <= k < i ==> !text::has_text(f.outgoing.uri, (#[trigger] cfg.block[k]).pattern),
    ensures
        step.action is Reply,
        cfg.block[i].status is Some ==> step.action->Reply_0.status == cfg.block[i].status->0,
        cfg.block[i].status is None ==> step.action->Reply_0.status == 403,
        g.exchange.state is Blocked,
{
    law_tools_are_obeyed(f, chain, hub, now, g, step);
    law_block_list_comes_first(cfg, f.outgoing);
    law_block_list_answers(cfg.block, f.outgoing.uri, i);
    assert(block_action(cfg.block, f.outgoing.uri) is ShortCircuit);
}

/// A request that the Block List lets pass and that Map Local has a rule for is answered with the
/// file of the first such rule.
pub proof fn law_mapped_is_answered_with_a_file(
    f: FlowView,
    chain: Seq<Tool>,
    cfg: ConfigView,
    i: int,
    hub: Option<HubView>,
    now: Clock,
    g: FlowView,
    step: StepView,
)
    requires
        tool_views(chain) == request_tools(cfg),
        intercepted(f, chain, hub, now, g, step),
        forall|k: int|
            0 <= k < cfg.block.len() ==> !text::has_text(
                f.outgoing.uri,
                (#[trigger] cfg.block[k]).pattern,
            ),
        0 <= i < cfg.map_local.len(),
        text::has_text(f.outgoing.uri, cfg.map_local[i].pattern),
        forall|k: int|
            0 <= k < i ==> !text::has_text(f.outgoing.uri, (#[trigger] cfg.map_local[k]).pattern),
    ensures
        step.action == FlowActionView::ReadFile(cfg.map_local[i].file),
{
    law_tools_are_obeyed(f, chain, hub, now, g, step);
    law_set_up_serves_files(cfg, f.outgoing, i);
}

/// A request that no tool answers waits if the hub holds for its URL, and else is sent, with the
/// method with which it came.
pub proof fn law_let_pass_is_sent_or_held(
    f: FlowView,
    chain: Seq<Tool>,
    cfg: ConfigView,
    hub: Option<HubView>,
    now: Clock,
    g: FlowView,
    step: StepView,
)
    requires
        tool_views(chain) == request_tools(cfg),
        intercepted(f, chain, hub, now, g, step),
        forall|k: int|
            0 <= k < cfg.block.len() ==> !text::has_text(
                f.outgoing.uri,
                (#[trigger] cfg.block[k]).pattern,
            ),
        forall|k: int|
            0 <= k < cfg.map_local.len() ==> !text::has_text(
                f.outgoing.uri,
                (#[trigger] cfg.map_local[k]).pattern,
            ),
    ensures
        hub is None ==> step.action is Forward,
        hub matches Some(h) ==> (step.action is Wait <==> h.holds(f.url)),
        hub matches Some(h) ==> (step.action is Forward <==> !h.holds(f.url)),
        step.action is Forward ==> step.action->Forward_method == f.outgoing.method,
        step.action is Forward ==> step.action->Forward_uri == tools_request(
            request_tools(cfg),
            f.outgoing,
        ).0.uri,
{
    law_tools_are_obeyed(f, chain, hub, now, g, step);
    law_set_up_changes_requests(cfg, f.outgoing);
    law_tools_keep_methods(ToolView::NoCaching, request_tools(cfg), f.outgoing);
}

/// The client gets the origin's response as the tools of the pipeline leave it, for the URL that
/// the client asked for.
pub proof fn law_response_passes_the_tools(
    f: FlowView,
    status: u16,
    headers: Seq<(Seq<char>, Seq<u8>)>,
    body: Option<Seq<u8>>,
    chain: Seq<Tool>,
    now: Clock,
    g: FlowView,
    step: StepView,
)
    ensures
        passed_through(f, status, headers, body, chain, now, g, step) ==> ({
            let after = tools_response(
                tool_views(chain),
                f.url,
                origin_response(status, headers, body),
            );
            &&& (g, step) == answered(
                f,
                status,
                headers,
                body,
                after,
                ActionView::Continue,
                now,
            )
            &&& step.action is Relay
            &&& step.action->Relay_status == after.status
            &&& step.action->Relay_headers == outgoing(headers, after.headers)
        }),
        head_passed_through(f, status, headers, chain, now, g, step) ==> ({
            let after = tools_response(
                tool_views(chain),
                f.url,
                origin_response(status, headers, None),
            );
            &&& (g, step) == headed(f, status, headers, after, ActionView::Continue, now)
            &&& step.action is Relay
            &&& step.action->Relay_status == after.status
            &&& step.action->Relay_headers == outgoing(headers, after.headers)
        }),
{
    if passed_through(f, status, headers, body, chain, now, g, step) {
        let before = origin_response(status, headers, body);
        let (after, action) = choose|after: ResponseView, action: ActionView|
            {
                &&& #[trigger] response_run(chain, before, context(f), after, action)
                &&& (g, step) == answered(f, status, headers, body, after, action, now)
            };
        law_tools_decide_responses(chain, before, context(f), after, action);
    }
    if head_passed_through(f, status, headers, chain, now, g, step) {
        let before = origin_response(status, headers, None);
        let (after, action) = choose|after: ResponseView, action: ActionView|
            {
                &&& #[trigger] response_run(chain, before, context(f), after, action)
                &&& (g, step) == headed(f, status, headers, after, action, now)
            };
        law_tools_decide_responses(chain, before, context(f), after, action);
    }
}

/// Without tools and without a hub, a request is sent as it came and its response reaches the
/// client as the origin sent it.
pub proof fn law_untouched_traffic(
    f: FlowView,
    chain: Seq<Tool>,
    now: Clock,
    g: FlowView,
    step: StepView,
    status: u16,
    headers: Seq<(Seq<char>, Seq<u8>)>,
    body: Option<Seq<u8>>,
    h: FlowView,
    last: StepView,
)
    requires
        chain.len() == 0,
        f.secure is None,
        f.outgoing.uri == f.url,
        f.outgoing.headers == field_texts(f.received),
        intercepted(f, chain, None, now, g, step),
        passed_through(g, status, headers, body, chain, now, h, last),
    ensures
        step.action == (FlowActionView::Forward {
            method: f.outgoing.method,
            uri: f.url,
            headers: f.received,
            target: None,
        }),
        last.action == (FlowActionView::Relay { status, headers, body }),
        h.exchange.state is Complete,
        h.exchange.response_status == Some(status),
        h.exchange.response_body == body,
{
    law_tools_are_obeyed(f, chain, None, now, g, step);
    law_response_passes_the_tools(g, status, headers, body, chain, now, h, last);
    assert(tool_views(chain) =~= Seq::empty());
    law_unchanged_fields_pass(f.received);
    law_unchanged_fields_pass(headers);
}

/// A step says its event and what is to be done, with all that goes with it.
pub proof fn law_steps_are_seen(
    s: Step,
    r: HttpResponse,
    status: u16,
    headers: Vec<(String, Vec<u8>)>,
    body: Option<bytes::Bytes>,
    file: String,
    method: String,
    uri: String,
    target: Option<Target>,
)
    ensures
        s@.action == s.action@,
        s@.event == opt_event(s.event),
        FlowAction::Reply(r)@ == FlowActionView::Reply(r@),
        (FlowAction::Relay { status, headers, body })@ == (FlowActionView::Relay {
            status,
            headers: raw_fields(headers@),
            body: opt_bytes(body),
        }),
        FlowAction::ReadFile(file)@ == FlowActionView::ReadFile(file@),
        FlowAction::Wait@ is Wait,
        (FlowAction::Forward { method, uri, headers, target })@ == (FlowActionView::Forward {
            method: method@,
            uri: uri@,
            headers: raw_fields(headers@),
            target: opt_target(target),
        }),
        FlowAction::Rest@ is Rest,
{
}

} // verus!
