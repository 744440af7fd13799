//! The data of the proxy: requests, responses, and the exchange that joins them.

use crate::body::{bytes_in, bytes_of_text, clone_opt, opt_bytes};
use crate::headers::{clone_fields, field, fields};
use vstd::prelude::*;
use vstd::utf8::encode_utf8;

verus! {

/// The number of an exchange.
#[derive(Debug, Clone, Copy, PartialEq, Eq, Hash, PartialOrd, Ord, Structural)]
pub struct ExchangeId(pub u64);

/// The number of a client connection.
#[derive(Debug, Clone, Copy, PartialEq, Eq, Hash, PartialOrd, Ord, Structural)]
pub struct ConnectionId(pub u64);

/// The protocol of an exchange.
#[derive(Debug, Clone, Copy, PartialEq, Eq, Structural)]
pub enum Protocol {
    Http1,
    Http2,
    Http3,
    WebSocket,
    Socks5,
    ConnectTunnel,
    RawTcp,
}

/// How far an exchange has come.
#[derive(Debug, Clone, Copy, PartialEq, Eq, Structural)]
pub enum ExchangeState {
    InProgress,
    Complete,
    Failed,
    Blocked,
    BreakpointHeld,
}

impl ExchangeState {
    /// The name of the state.
    pub open spec fn label(self) -> Seq<char> {
        match self {
            ExchangeState::InProgress => "InProgress"@,
            ExchangeState::Complete => "Complete"@,
            ExchangeState::Failed => "Failed"@,
            ExchangeState::Blocked => "Blocked"@,
            ExchangeState::BreakpointHeld => "BreakpointHeld"@,
        }
    }

    /// The name of the state.
    pub fn name(self) -> (r: &'static str)
        ensures
            r@ == self.label(),
    {
        match self {
            ExchangeState::InProgress => "InProgress",
            ExchangeState::Complete => "Complete",
            ExchangeState::Failed => "Failed",
            ExchangeState::Blocked => "Blocked",
            ExchangeState::BreakpointHeld => "BreakpointHeld",
        }
    }
}

/// One reading of the clocks: nanoseconds on a clock that never goes back, and nanoseconds since
/// the start of 1970.
#[derive(Debug, Clone, Copy, PartialEq, Eq, Structural)]
pub struct Clock {
    pub monotonic: u64,
    pub wall: u64,
}

/// What an interceptor knows of the exchange beside the message.
#[derive(Debug)]
pub struct ExchangeCtx {
    pub exchange_id: u64,
    /// The URL that the client asked for.
    pub url: String,
}

/// What a context says.
pub struct CtxView {
    pub exchange_id: u64,
    pub url: Seq<char>,
}

impl View for ExchangeCtx {
    type V = CtxView;

    open spec fn view(&self) -> CtxView {
        CtxView { exchange_id: self.exchange_id, url: self.url@ }
    }
}

impl Clone for ExchangeCtx {
    fn clone(&self) -> (r: Self)
        ensures
            r@ == self@,
    {
        ExchangeCtx { exchange_id: self.exchange_id, url: self.url.clone() }
    }
}

/// A request, without its body.
#[derive(Debug)]
pub struct HttpRequest {
    pub method: String,
    /// The absolute URI, or `host:port` for CONNECT.
    pub uri: String,
    pub headers: Vec<(String, String)>,
    pub is_connect: bool,
}

/// What a request says.
pub struct RequestView {
    pub method: Seq<char>,
    pub uri: Seq<char>,
    pub headers: Seq<(Seq<char>, Seq<char>)>,
    pub is_connect: bool,
}

impl View for HttpRequest {
    type V = RequestView;

    open spec fn view(&self) -> RequestView {
        RequestView {
            method: self.method@,
            uri: self.uri@,
            headers: fields(self.headers@),
            is_connect: self.is_connect,
        }
    }
}

impl Clone for HttpRequest {
    fn clone(&self) -> (r: Self)
        ensures
            r@ == self@,
    {
        HttpRequest {
            method: self.method.clone(),
            uri: self.uri.clone(),
            headers: clone_fields(&self.headers),
            is_connect: self.is_connect,
        }
    }
}

/// A response with its body.
#[derive(Debug)]
pub struct HttpResponse {
    pub status: u16,
    pub reason: Option<String>,
    pub headers: Vec<(String, String)>,
    pub body: bytes::Bytes,
}

/// What a response says.
pub struct ResponseView {
    pub status: u16,
    pub reason: Option<Seq<char>>,
    pub headers: Seq<(Seq<char>, Seq<char>)>,
    pub body: Seq<u8>,
}

/// The text of an optional string.
pub open spec fn opt_text(s: Option<String>) -> Option<Seq<char>> {
    match s {
        Some(x) => Some(x@),
        None => None,
    }
}

/// A second optional string with the same text.
pub fn clone_opt_text(s: &Option<String>) -> (r: Option<String>)
    ensures
        opt_text(r) == opt_text(*s),
{
    match s {
        Some(x) => Some(x.clone()),
        None => None,
    }
}

impl View for HttpResponse {
    type V = ResponseView;

    open spec fn view(&self) -> ResponseView {
        ResponseView {
            status: self.status,
            reason: opt_text(self.reason),
            headers: fields(self.headers@),
            body: bytes_in(self.body),
        }
    }
}

/// A response of plain text.
pub open spec fn text_response(status: u16, body: Seq<char>) -> ResponseView {
    ResponseView {
        status,
        reason: None,
        headers: seq![("content-type"@, "text/plain"@)],
        body: encode_utf8(body),
    }
}

/// A response without headers and body.
pub open spec fn empty_view(status: u16) -> ResponseView {
    ResponseView { status, reason: None, headers: Seq::empty(), body: Seq::empty() }
}

impl Clone for HttpResponse {
    fn clone(&self) -> (r: Self)
        ensures
            r@ == self@,
    {
        HttpResponse {
            status: self.status,
            reason: clone_opt_text(&self.reason),
            headers: clone_fields(&self.headers),
            body: self.body.clone(),
        }
    }
}

impl HttpResponse {
    /// A response of plain text.
    pub fn text(status: u16, body: &str) -> (r: Self)
        ensures
            r@ == text_response(status, body@),
    {
        let mut headers: Vec<(String, String)> = Vec::new();
        headers.push(field("content-type", "text/plain"));
        let r = HttpResponse { status, reason: None, headers, body: bytes_of_text(body) };
        assert(r@.headers =~= text_response(status, body@).headers);
        r
    }

    /// A response without headers and body.
    pub fn empty(status: u16) -> (r: Self)
        ensures
            r@ == empty_view(status),
    {
        let r = HttpResponse {
            status,
            reason: None,
            headers: Vec::new(),
            body: crate::body::bytes_from(Vec::new()),
        };
        assert(r@.headers =~= Seq::empty());
        r
    }
}

/// When an exchange started and ended, in nanoseconds on the monotonic clock.
#[derive(Debug, Clone, Copy)]
pub struct Timing {
    pub started_at: Option<u64>,
    pub completed_at: Option<u64>,
}

impl Default for Timing {
    fn default() -> (r: Self)
        ensures
            r == (Timing { started_at: None, completed_at: None }),
    {
        Timing { started_at: None, completed_at: None }
    }
}

impl Timing {
    /// The time from start to end, in nanoseconds; none before the end is known. A clock that
    /// went back gives no time at all.
    pub open spec fn elapsed(self) -> Option<u64> {
        match (self.started_at, self.completed_at) {
            (Some(s), Some(c)) => Some(
                if c >= s {
                    (c - s) as u64
                } else {
                    0
                },
            ),
            _ => None,
        }
    }

    /// The whole milliseconds of the time from start to end.
    pub open spec fn millis(self) -> Option<u64> {
        match self.elapsed() {
            Some(n) => Some(n / 1_000_000),
            None => None,
        }
    }

    /// A timing that starts at `now`.
    pub fn start(now: u64) -> (r: Self)
        ensures
            r == (Timing { started_at: Some(now), completed_at: None }),
    {
        Timing { started_at: Some(now), completed_at: None }
    }

    /// The time from start to end, in nanoseconds.
    pub fn total(&self) -> (r: Option<u64>)
        ensures
            r == self.elapsed(),
    {
        match (self.started_at, self.completed_at) {
            (Some(s), Some(c)) => Some(
                if c >= s {
                    c - s
                } else {
                    0
                },
            ),
            _ => None,
        }
    }

    /// The whole milliseconds of the time from start to end.
    pub fn total_millis(&self) -> (r: Option<u64>)
        ensures
            r == self.millis(),
    {
        match self.total() {
            Some(n) => Some(n / 1_000_000),
            None => None,
        }
    }
}

/// One exchange in the record of traffic: a request and what came of it.
#[derive(Debug)]
pub struct Exchange {
    pub id: ExchangeId,
    pub connection_id: ConnectionId,
    pub protocol: Protocol,
    pub state: ExchangeState,
    pub request: Option<HttpRequest>,
    pub response_status: Option<u16>,
    pub response_headers: Vec<(String, String)>,
    pub response_content_type: Option<String>,
    pub request_body: Option<bytes::Bytes>,
    pub response_body: Option<bytes::Bytes>,
    /// The response body with its content encoding undone, where that applies.
    pub response_body_decoded: Option<bytes::Bytes>,
    pub timing: Timing,
    /// When the exchange started, in nanoseconds since the start of 1970.
    pub started_wall: Option<u64>,
    pub error: Option<String>,
}

/// What an exchange says.
pub struct ExchangeView {
    pub id: ExchangeId,
    pub connection_id: ConnectionId,
    pub protocol: Protocol,
    pub state: ExchangeState,
    pub request: Option<RequestView>,
    pub response_status: Option<u16>,
    pub response_headers: Seq<(Seq<char>, Seq<char>)>,
    pub response_content_type: Option<Seq<char>>,
    pub request_body: Option<Seq<u8>>,
    pub response_body: Option<Seq<u8>>,
    pub response_body_decoded: Option<Seq<u8>>,
    pub timing: Timing,
    pub started_wall: Option<u64>,
    pub error: Option<Seq<char>>,
}

/// What an optional request says.
pub open spec fn opt_request(r: Option<HttpRequest>) -> Option<RequestView> {
    match r {
        Some(x) => Some(x@),
        None => None,
    }
}

impl View for Exchange {
    type V = ExchangeView;

    open spec fn view(&self) -> ExchangeView {
        ExchangeView {
            id: self.id,
            connection_id: self.connection_id,
            protocol: self.protocol,
            state: self.state,
            request: opt_request(self.request),
            response_status: self.response_status,
            response_headers: fields(self.response_headers@),
            response_content_type: opt_text(self.response_content_type),
            request_body: opt_bytes(self.request_body),
            response_body: opt_bytes(self.response_body),
            response_body_decoded: opt_bytes(self.response_body_decoded),
            timing: self.timing,
            started_wall: self.started_wall,
            error: opt_text(self.error),
        }
    }
}

/// What each of the exchanges says.
pub open spec fn views(s: Seq<Exchange>) -> Seq<ExchangeView> {
    s.map_values(|e: Exchange| e@)
}

/// An exchange that has just started.
pub open spec fn fresh(
    id: ExchangeId,
    connection_id: ConnectionId,
    protocol: Protocol,
    now: Clock,
) -> ExchangeView {
    ExchangeView {
        id,
        connection_id,
        protocol,
        state: ExchangeState::InProgress,
        request: None,
        response_status: None,
        response_headers: Seq::empty(),
        response_content_type: None,
        request_body: None,
        response_body: None,
        response_body_decoded: None,
        timing: Timing { started_at: Some(now.monotonic), completed_at: None },
        started_wall: Some(now.wall),
        error: None,
    }
}

/// An exchange that ended in `state`.
pub open spec fn finished(e: ExchangeView, state: ExchangeState, now: Clock) -> ExchangeView {
    ExchangeView {
        state,
        timing: Timing { started_at: e.timing.started_at, completed_at: Some(now.monotonic) },
        ..e
    }
}

/// An exchange with an error.
pub open spec fn with_error(e: ExchangeView, error: Seq<char>) -> ExchangeView {
    ExchangeView { error: Some(error), ..e }
}

impl Clone for Exchange {
    fn clone(&self) -> (r: Self)
        ensures
            r@ == self@,
    {
        let request = match &self.request {
            Some(x) => Some(x.clone()),
            None => None,
        };
        Exchange {
            id: self.id,
            connection_id: self.connection_id,
            protocol: self.protocol,
            state: self.state,
            request,
            response_status: self.response_status,
            response_headers: clone_fields(&self.response_headers),
            response_content_type: clone_opt_text(&self.response_content_type),
            request_body: clone_opt(&self.request_body),
            response_body: clone_opt(&self.response_body),
            response_body_decoded: clone_opt(&self.response_body_decoded),
            timing: self.timing,
            started_wall: self.started_wall,
            error: clone_opt_text(&self.error),
        }
    }
}

impl Exchange {
    /// An exchange that starts at `now`.
    pub fn new(
        id: ExchangeId,
        connection_id: ConnectionId,
        protocol: Protocol,
        now: Clock,
    ) -> (r: Self)
        ensures
            r@ == fresh(id, connection_id, protocol, now),
    {
        let r = Exchange {
            id,
            connection_id,
            protocol,
            state: ExchangeState::InProgress,
            request: None,
            response_status: None,
            response_headers: Vec::new(),
            response_content_type: None,
            request_body: None,
            response_body: None,
            response_body_decoded: None,
            timing: Timing::start(now.monotonic),
            started_wall: Some(now.wall),
            error: None,
        };
        assert(r@.response_headers =~= Seq::empty());
        r
    }

    /// Ends the exchange in a state.
    pub fn finish(&mut self, state: ExchangeState, now: Clock)
        ensures
            final(self)@ == finished(old(self)@, state, now),
    {
        self.state = state;
        self.timing.completed_at = Some(now.monotonic);
    }

    /// Ends the exchange with an error.
    pub fn fail(&mut self, error: String, now: Clock)
        ensures
            final(self)@ == finished(
                with_error(old(self)@, error@),
                ExchangeState::Failed,
                now,
            ),
    {
        self.error = Some(error);
        self.finish(ExchangeState::Failed, now);
    }
}

// ---------------------------------------------------------------- laws

/// A response of plain text says so, has the text as its body, and no other header.
pub proof fn law_text_response(status: u16, body: Seq<char>)
    ensures
        text_response(status, body).status == status,
        text_response(status, body).reason is None,
        text_response(status, body).headers.len() == 1,
        text_response(status, body).headers[0] == ("content-type"@, "text/plain"@),
        text_response(status, body).body == encode_utf8(body),
{
}

/// An empty response has its status and nothing else.
pub proof fn law_empty_response(status: u16)
    ensures
        empty_view(status).status == status,
        empty_view(status).reason is None,
        empty_view(status).headers.len() == 0,
        empty_view(status).body.len() == 0,
{
}

/// A duration is what lies between start and end; it is known once both are, and is nothing where
/// the end comes before the start.
pub proof fn law_elapsed(t: Timing, start: u64, nanos: u64)
    requires
        start + nanos <= u64::MAX,
    ensures
        (Timing { started_at: Some(start), completed_at: Some((start + nanos) as u64) }).elapsed()
            == Some(nanos),
        (Timing { started_at: Some((start + nanos) as u64), completed_at: Some(start) }).elapsed()
            == Some(0u64),
        t.elapsed() is Some <==> t.started_at is Some && t.completed_at is Some,
        t.millis() is Some <==> t.elapsed() is Some,
        t.elapsed() is Some ==> t.millis()->0 * 1_000_000 <= t.elapsed()->0 < (t.millis()->0 + 1)
            * 1_000_000,
{
}

/// A state is written by its own name, so that no two states are written alike.
pub proof fn law_states_are_told_apart(a: ExchangeState, b: ExchangeState)
    ensures
        a.label() == b.label() <==> a == b,
        a is InProgress ==> a.label() == "InProgress"@,
        a is Complete ==> a.label() == "Complete"@,
        a is Failed ==> a.label() == "Failed"@,
        a is Blocked ==> a.label() == "Blocked"@,
        a is BreakpointHeld ==> a.label() == "BreakpointHeld"@,
{
    reveal_strlit("InProgress");
    reveal_strlit("Complete");
    reveal_strlit("Failed");
    reveal_strlit("Blocked");
    reveal_strlit("BreakpointHeld");
    assert("InProgress"@.len() == 10);
    assert("Complete"@.len() == 8);
    assert("Failed"@.len() == 6);
    assert("Blocked"@.len() == 7);
    assert("BreakpointHeld"@.len() == 14);
}

/// An exchange that has just started is known by its numbers, its protocol and the time; it is in
/// progress, and all else is still to come.
pub proof fn law_fresh_exchange(
    id: ExchangeId,
    connection_id: ConnectionId,
    protocol: Protocol,
    now: Clock,
)
    ensures
        ({
            let e = fresh(id, connection_id, protocol, now);
            &&& e.id == id
            &&& e.connection_id == connection_id
            &&& e.protocol == protocol
            &&& e.state is InProgress
            &&& e.timing.started_at == Some(now.monotonic)
            &&& e.timing.completed_at is None
            &&& e.started_wall == Some(now.wall)
            &&& e.request is None
            &&& e.response_status is None
            &&& e.response_headers.len() == 0
            &&& e.response_content_type is None
            &&& e.request_body is None
            &&& e.response_body is None
            &&& e.response_body_decoded is None
            &&& e.error is None
        }),
{
}

/// Ending an exchange sets its state and the time of its end, and an error sets the error; what
/// was on record before stays.
pub proof fn law_ended_exchange(
    e: ExchangeView,
    state: ExchangeState,
    now: Clock,
    error: Seq<char>,
)
    ensures
        finished(e, state, now).state == state,
        finished(e, state, now).timing.completed_at == Some(now.monotonic),
        finished(e, state, now).timing.started_at == e.timing.started_at,
        same_record(finished(e, state, now), e),
        finished(e, state, now).error == e.error,
        with_error(e, error).error == Some(error),
        with_error(e, error).state == e.state,
        with_error(e, error).timing == e.timing,
        same_record(with_error(e, error), e),
{
}

/// Two records are of the same exchange, and of the same messages in it.
pub open spec fn same_record(a: ExchangeView, b: ExchangeView) -> bool {
    &&& a.id == b.id
    &&& a.connection_id == b.connection_id
    &&& a.protocol == b.protocol
    &&& a.request == b.request
    &&& a.response_status == b.response_status
    &&& a.response_headers == b.response_headers
    &&& a.response_content_type == b.response_content_type
    &&& a.request_body == b.request_body
    &&& a.response_body == b.response_body
    &&& a.response_body_decoded == b.response_body_decoded
    &&& a.started_wall == b.started_wall
}

/// What is said of a request, a response or a context is what its fields hold.
pub proof fn law_messages_are_seen(q: HttpRequest, r: HttpResponse, c: ExchangeCtx)
    ensures
        q@.method == q.method@,
        q@.uri == q.uri@,
        q@.headers == fields(q.headers@),
        q@.is_connect == q.is_connect,
        r@.status == r.status,
        r.reason is Some ==> r@.reason == Some(r.reason->0@),
        r.reason is None ==> r@.reason is None,
        r@.headers == fields(r.headers@),
        r@.body == bytes_in(r.body),
        c@.exchange_id == c.exchange_id,
        c@.url == c.url@,
{
}

/// What is said of an exchange is what its fields hold, and of several, what each holds.
pub proof fn law_exchanges_are_seen(e: Exchange, s: Seq<Exchange>, i: int)
    ensures
        e@.id == e.id,
        e@.connection_id == e.connection_id,
        e@.protocol == e.protocol,
        e@.state == e.state,
        e.request is Some ==> e@.request == Some(e.request->0@),
        e.request is None ==> e@.request is None,
        e@.response_status == e.response_status,
        e@.response_headers == fields(e.response_headers@),
        e.response_content_type is Some ==> e@.response_content_type == Some(
            e.response_content_type->0@,
        ),
        e.response_content_type is None ==> e@.response_content_type is None,
        e.request_body is Some ==> e@.request_body == Some(bytes_in(e.request_body->0)),
        e.request_body is None ==> e@.request_body is None,
        e.response_body is Some ==> e@.response_body == Some(bytes_in(e.response_body->0)),
        e.response_body is None ==> e@.response_body is None,
        e.response_body_decoded is Some ==> e@.response_body_decoded == Some(
            bytes_in(e.response_body_decoded->0),
        ),
        e.response_body_decoded is None ==> e@.response_body_decoded is None,
        e@.timing == e.timing,
        e@.started_wall == e.started_wall,
        e.error is Some ==> e@.error == Some(e.error->0@),
        e.error is None ==> e@.error is None,
        views(s).len() == s.len(),
        0 <= i < s.len() ==> views(s)[i] == s[i]@,
{
}

} // verus!
