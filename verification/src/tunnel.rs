//! The way of a CONNECT request: a tunnel whose bytes pass unread, or one that is decrypted.

use crate::events::{opt_event, EventView, ProxyEvent};
use crate::flow::joined;
use crate::model::{
    finished, fresh, opt_text, same_record, with_error, Clock, ConnectionId, Exchange, ExchangeId,
    ExchangeState, ExchangeView, HttpRequest, Protocol, RequestView,
};
use crate::target::{host_port, split_authority, target_at};
use vstd::prelude::*;

verus! {

// ---------------------------------------------------------------- data

/// How far a tunnel has come.
#[derive(Debug, Clone, Copy, PartialEq, Eq, Structural)]
pub enum TunnelStage {
    /// The connection to the other end is being made.
    Dialing,
    /// The client has been told that the tunnel stands; its connection is being taken over.
    Upgrading,
    /// Bytes pass both ways.
    Splicing,
    /// A certificate for the other end is being issued.
    Issuing,
    /// The client checks the certificate.
    Handshaking,
    /// The client's requests are being served.
    Serving,
    /// It is over.
    Closed,
}

/// What has happened to a tunnel; with an error where it went wrong.
pub enum TunnelNews {
    Dialed(Option<String>),
    Upgraded(Option<String>),
    /// The connection that was taken over is not a plain one.
    NotPlain,
    Spliced(Option<String>),
    /// Whether there is a certificate.
    Issued(bool),
    Shaken(Option<String>),
    Served(Option<String>),
}

/// What to do next for a tunnel.
pub enum TunnelAction {
    /// Connect to this authority.
    Dial(String),
    /// Tell the client that the tunnel stands, and take over its connection.
    Accept { status: u16 },
    /// Tell the client that there is no tunnel.
    Refuse { status: u16 },
    /// Pass bytes both ways.
    Splice,
    /// Issue a certificate for this host.
    Issue(String),
    /// Do the TLS handshake with the client.
    Handshake,
    /// Serve the requests inside the tunnel to this authority.
    Serve(String),
    /// Close both ends.
    Close,
}

/// What an action says.
pub enum TunnelActionView {
    Dial(Seq<char>),
    Accept { status: u16 },
    Refuse { status: u16 },
    Splice,
    Issue(Seq<char>),
    Handshake,
    Serve(Seq<char>),
    Close,
}

impl View for TunnelAction {
    type V = TunnelActionView;

    open spec fn view(&self) -> TunnelActionView {
        match *self {
            TunnelAction::Dial(a) => TunnelActionView::Dial(a@),
            TunnelAction::Accept { status } => TunnelActionView::Accept { status },
            TunnelAction::Refuse { status } => TunnelActionView::Refuse { status },
            TunnelAction::Splice => TunnelActionView::Splice,
            TunnelAction::Issue(a) => TunnelActionView::Issue(a@),
            TunnelAction::Handshake => TunnelActionView::Handshake,
            TunnelAction::Serve(a) => TunnelActionView::Serve(a@),
            TunnelAction::Close => TunnelActionView::Close,
        }
    }
}

/// One step: an event to publish, if there is one, and what to do next.
pub struct TunnelStep {
    pub event: Option<ProxyEvent>,
    pub action: TunnelAction,
}

/// What a step says.
pub struct TunnelStepView {
    pub event: Option<EventView>,
    pub action: TunnelActionView,
}

impl View for TunnelStep {
    type V = TunnelStepView;

    open spec fn view(&self) -> TunnelStepView {
        TunnelStepView { event: opt_event(self.event), action: self.action@ }
    }
}

/// A tunnel.
pub struct Tunnel {
    exchange: Exchange,
    authority: String,
    decrypt: bool,
    stage: TunnelStage,
}

/// What is known of a tunnel.
pub struct TunnelView {
    /// The exchange as it is recorded.
    pub exchange: ExchangeView,
    /// The other end, as the client named it.
    pub authority: Seq<char>,
    /// Whether the traffic is to be decrypted.
    pub decrypt: bool,
    pub stage: TunnelStage,
}

impl View for Tunnel {
    type V = TunnelView;

    closed spec fn view(&self) -> TunnelView {
        TunnelView {
            exchange: self.exchange@,
            authority: self.authority@,
            decrypt: self.decrypt,
            stage: self.stage,
        }
    }
}

// ---------------------------------------------------------------- model

/// A tunnel that has just been asked for. One that is to be decrypted stands at once: the other
/// end is reached by each request of its own.
pub open spec fn opened(
    id: ExchangeId,
    connection: ConnectionId,
    authority: Seq<char>,
    decrypt: bool,
    now: Clock,
) -> TunnelView {
    TunnelView {
        exchange: ExchangeView {
            request: Some(
                RequestView {
                    method: "CONNECT"@,
                    uri: authority,
                    headers: Seq::empty(),
                    is_connect: true,
                },
            ),
            ..fresh(id, connection, Protocol::ConnectTunnel, now)
        },
        authority,
        decrypt,
        stage: if decrypt {
            TunnelStage::Upgrading
        } else {
            TunnelStage::Dialing
        },
    }
}

/// This is news that a tunnel at this stage waits for.
pub open spec fn awaited(stage: TunnelStage, news: TunnelNews) -> bool {
    match stage {
        TunnelStage::Dialing => news is Dialed,
        TunnelStage::Upgrading => news is Upgraded || news is NotPlain,
        TunnelStage::Splicing => news is Spliced,
        TunnelStage::Issuing => news is Issued,
        TunnelStage::Handshaking => news is Shaken,
        TunnelStage::Serving => news is Served,
        TunnelStage::Closed => false,
    }
}

/// An error behind the words that say where it arose.
pub open spec fn told(prefix: Seq<char>, error: Option<String>) -> Option<Seq<char>> {
    match error {
        Some(e) => Some(prefix + e@),
        None => None,
    }
}

/// What went wrong, in words, if something did.
pub open spec fn trouble(news: TunnelNews, authority: Seq<char>) -> Option<Seq<char>> {
    match news {
        TunnelNews::Dialed(e) => told("connect: "@, e),
        TunnelNews::Upgraded(e) => told("upgrade: "@, e),
        TunnelNews::NotPlain => Some("upgrade downcast failed"@),
        TunnelNews::Spliced(e) => told("tunnel: "@, e),
        TunnelNews::Issued(done) => if done {
            None
        } else {
            Some("leaf cert for "@ + authority + " failed"@)
        },
        TunnelNews::Shaken(e) => told("client TLS handshake ("@ + authority + "): "@, e),
        TunnelNews::Served(e) => told("mitm session ("@ + authority + "): "@, e),
    }
}

/// The stage after this one, where all goes well.
pub open spec fn following(stage: TunnelStage, decrypt: bool) -> TunnelStage {
    match stage {
        TunnelStage::Dialing => TunnelStage::Upgrading,
        TunnelStage::Upgrading => if decrypt {
            TunnelStage::Issuing
        } else {
            TunnelStage::Splicing
        },
        TunnelStage::Issuing => TunnelStage::Handshaking,
        TunnelStage::Handshaking => TunnelStage::Serving,
        _ => TunnelStage::Closed,
    }
}

/// What is done to come through this stage.
pub open spec fn work(stage: TunnelStage, authority: Seq<char>) -> TunnelActionView {
    match stage {
        TunnelStage::Dialing => TunnelActionView::Dial(authority),
        TunnelStage::Upgrading => TunnelActionView::Accept { status: 200 },
        TunnelStage::Splicing => TunnelActionView::Splice,
        TunnelStage::Issuing => TunnelActionView::Issue(host_port(authority).0),
        TunnelStage::Handshaking => TunnelActionView::Handshake,
        TunnelStage::Serving => TunnelActionView::Serve(authority),
        TunnelStage::Closed => TunnelActionView::Close,
    }
}

/// The end of a tunnel.
pub open spec fn shut(
    t: TunnelView,
    exchange: ExchangeView,
    action: TunnelActionView,
) -> (TunnelView, TunnelStepView) {
    (
        TunnelView { exchange, stage: TunnelStage::Closed, ..t },
        TunnelStepView { event: Some(EventView::ExchangeCompleted(exchange)), action },
    )
}

/// What comes of a tunnel on this news.
pub open spec fn advanced(t: TunnelView, news: TunnelNews, now: Clock) -> (
    TunnelView,
    TunnelStepView,
) {
    let next = following(t.stage, t.decrypt);
    match trouble(news, t.authority) {
        Some(e) => shut(
            t,
            finished(with_error(t.exchange, e), ExchangeState::Failed, now),
            if news is Dialed {
                TunnelActionView::Refuse { status: 502 }
            } else {
                TunnelActionView::Close
            },
        ),
        None => if next is Closed {
            shut(
                t,
                finished(t.exchange, ExchangeState::Complete, now),
                TunnelActionView::Close,
            )
        } else {
            (
                TunnelView { stage: next, ..t },
                TunnelStepView { event: None, action: work(next, t.authority) },
            )
        },
    }
}

// ---------------------------------------------------------------- functions

/// Words round an authority.
fn about(before: &str, authority: &str, after: &str) -> (r: String)
    ensures
        r@ == before@ + authority@ + after@,
{
    let mut s = joined(before, authority);
    s.push_str(after);
    s
}

/// An error behind the words that say where it arose.
fn tell(prefix: &str, error: Option<String>) -> (r: Option<String>)
    ensures
        opt_text(r) == told(prefix@, error),
{
    match error {
        Some(e) => Some(joined(prefix, e.as_str())),
        None => None,
    }
}

impl TunnelNews {
    fn error(self, authority: &str) -> (r: Option<String>)
        ensures
            opt_text(r) == trouble(self, authority@),
    {
        match self {
            TunnelNews::Dialed(e) => tell("connect: ", e),
            TunnelNews::Upgraded(e) => tell("upgrade: ", e),
            TunnelNews::NotPlain => Some("upgrade downcast failed".to_string()),
            TunnelNews::Spliced(e) => tell("tunnel: ", e),
            TunnelNews::Issued(done) => {
                if done {
                    None
                } else {
                    Some(about("leaf cert for ", authority, " failed"))
                }
            },
            TunnelNews::Shaken(e) => tell(
                about("client TLS handshake (", authority, "): ").as_str(),
                e,
            ),
            TunnelNews::Served(e) => tell(about("mitm session (", authority, "): ").as_str(), e),
        }
    }
}

impl Tunnel {
    /// A tunnel has been asked for. The event is to be published.
    pub fn open(
        id: ExchangeId,
        connection: ConnectionId,
        authority: &str,
        decrypt: bool,
        now: Clock,
    ) -> (r: (Tunnel, TunnelStep))
        ensures
            r.0@ == opened(id, connection, authority@, decrypt, now),
            r.1@ == (TunnelStepView {
                event: Some(EventView::ExchangeStarted(r.0@.exchange)),
                action: work(r.0@.stage, authority@),
            }),
    {
        let mut exchange = Exchange::new(id, connection, Protocol::ConnectTunnel, now);
        let headers: Vec<(String, String)> = Vec::new();
        assert(crate::headers::fields(headers@) =~= Seq::empty());
        exchange.request = Some(
            HttpRequest {
                method: "CONNECT".to_string(),
                uri: authority.to_string(),
                headers,
                is_connect: true,
            },
        );
        let event = ProxyEvent::ExchangeStarted(exchange.clone());
        let stage = if decrypt {
            TunnelStage::Upgrading
        } else {
            TunnelStage::Dialing
        };
        let t = Tunnel { exchange, authority: authority.to_string(), decrypt, stage };
        let action = t.next_work();
        (t, TunnelStep { event: Some(event), action })
    }

    fn next_work(&self) -> (r: TunnelAction)
        ensures
            r@ == work(self@.stage, self@.authority),
    {
        match self.stage {
            TunnelStage::Dialing => TunnelAction::Dial(self.authority.clone()),
            TunnelStage::Upgrading => TunnelAction::Accept { status: 200 },
            TunnelStage::Splicing => TunnelAction::Splice,
            TunnelStage::Issuing => TunnelAction::Issue(split_authority(self.authority.as_str()).0),
            TunnelStage::Handshaking => TunnelAction::Handshake,
            TunnelStage::Serving => TunnelAction::Serve(self.authority.clone()),
            TunnelStage::Closed => TunnelAction::Close,
        }
    }

    /// Goes on with a tunnel on news that it waits for.
    pub fn advance(&mut self, news: TunnelNews, now: Clock) -> (step: TunnelStep)
        requires
            awaited(old(self)@.stage, news),
        ensures
            (final(self)@, step@) == advanced(old(self)@, news, now),
    {
        let dialed: bool = match &news {
            TunnelNews::Dialed(_) => true,
            _ => false,
        };
        match news.error(self.authority.as_str()) {
            Some(e) => {
                self.exchange.fail(e, now);
                self.stage = TunnelStage::Closed;
                let action = if dialed {
                    TunnelAction::Refuse { status: 502 }
                } else {
                    TunnelAction::Close
                };
                TunnelStep {
                    event: Some(ProxyEvent::ExchangeCompleted(self.exchange.clone())),
                    action,
                }
            },
            None => {
                let next = match self.stage {
                    TunnelStage::Dialing => TunnelStage::Upgrading,
                    TunnelStage::Upgrading => if self.decrypt {
                        TunnelStage::Issuing
                    } else {
                        TunnelStage::Splicing
                    },
                    TunnelStage::Issuing => TunnelStage::Handshaking,
                    TunnelStage::Handshaking => TunnelStage::Serving,
                    _ => TunnelStage::Closed,
                };
                self.stage = next;
                let event = match next {
                    TunnelStage::Closed => {
                        self.exchange.finish(ExchangeState::Complete, now);
                        Some(ProxyEvent::ExchangeCompleted(self.exchange.clone()))
                    },
                    _ => None,
                };
                TunnelStep { event, action: self.next_work() }
            },
        }
    }
}

// ---------------------------------------------------------------- laws

/// What holds of a tunnel at every stage: it is on record as a CONNECT to its authority, it has
/// ended if and only if it is closed, and an error is on record if and only if it failed.
pub open spec fn tunnel_sound(t: TunnelView) -> bool {
    let e = t.exchange;
    &&& e.protocol is ConnectTunnel
    &&& e.request is Some
    &&& e.request->0.is_connect
    &&& e.request->0.uri == t.authority
    &&& e.timing.completed_at is Some <==> t.stage is Closed
    &&& e.error is Some <==> e.state is Failed
    &&& if t.stage is Closed {
        e.state is Complete || e.state is Failed
    } else {
        e.state is InProgress
    }
}

/// How many stages a tunnel can still come to.
pub open spec fn left(stage: TunnelStage) -> nat {
    match stage {
        TunnelStage::Dialing => 5,
        TunnelStage::Upgrading => 4,
        TunnelStage::Issuing => 3,
        TunnelStage::Handshaking => 2,
        TunnelStage::Serving => 1,
        TunnelStage::Splicing => 1,
        TunnelStage::Closed => 0,
    }
}

/// A tunnel that has just been asked for is sound.
pub proof fn law_open_tunnel_is_sound(
    id: ExchangeId,
    connection: ConnectionId,
    authority: Seq<char>,
    decrypt: bool,
    now: Clock,
)
    ensures
        tunnel_sound(opened(id, connection, authority, decrypt, now)),
{
}

/// Whatever news comes, the tunnel stays sound, comes nearer to its end, and its end is announced
/// if and only if it has come.
pub proof fn law_tunnel_advances(t: TunnelView, news: TunnelNews, now: Clock)
    requires
        tunnel_sound(t),
        awaited(t.stage, news),
    ensures
        tunnel_sound(advanced(t, news, now).0),
        left(advanced(t, news, now).0.stage) < left(t.stage),
        advanced(t, news, now).0.stage is Closed <==> advanced(t, news, now).1.event == Some(
            EventView::ExchangeCompleted(advanced(t, news, now).0.exchange),
        ),
        advanced(t, news, now).0.stage is Closed <==> advanced(t, news, now).1.event is Some,
        advanced(t, news, now).0.exchange.id == t.exchange.id,
        advanced(t, news, now).0.exchange.request == t.exchange.request,
{
}

/// The certificate is issued for the host to which the requests inside the tunnel are sent.
pub proof fn law_certificate_is_for_the_target(authority: Seq<char>, path: Seq<char>)
    ensures
        work(TunnelStage::Issuing, authority) == TunnelActionView::Issue(
            target_at(authority, path).host,
        ),
{
}

/// The tunnel fails if and only if the news is bad, with the trouble on record.
pub proof fn law_bad_news_fails_the_tunnel(t: TunnelView, news: TunnelNews, now: Clock)
    requires
        tunnel_sound(t),
        awaited(t.stage, news),
    ensures
        advanced(t, news, now).0.exchange.state is Failed <==> trouble(news, t.authority) is Some,
        advanced(t, news, now).0.exchange.error == trouble(news, t.authority),
{
}

/// A tunnel that is asked for is on record as a CONNECT to the other end, without headers, from now
/// on. One that is to be decrypted is accepted at once; for any other the other end is dialed
/// first.
pub proof fn law_open_tunnel_is_recorded(
    id: ExchangeId,
    connection: ConnectionId,
    authority: Seq<char>,
    decrypt: bool,
    now: Clock,
)
    ensures
        ({
            let t = opened(id, connection, authority, decrypt, now);
            &&& t.exchange.id == id
            &&& t.exchange.connection_id == connection
            &&& t.exchange.protocol is ConnectTunnel
            &&& t.exchange.state is InProgress
            &&& t.exchange.timing.started_at == Some(now.monotonic)
            &&& t.exchange.started_wall == Some(now.wall)
            &&& t.exchange.request is Some
            &&& t.exchange.request->0.method == "CONNECT"@
            &&& t.exchange.request->0.uri == authority
            &&& t.exchange.request->0.headers.len() == 0
            &&& t.exchange.request->0.is_connect
            &&& t.authority == authority
            &&& t.decrypt == decrypt
            &&& decrypt ==> work(t.stage, authority) == TunnelActionView::Accept { status: 200 }
            &&& !decrypt ==> work(t.stage, authority) == TunnelActionView::Dial(authority)
        }),
{
}

/// Where all goes well, a plain tunnel is dialed, accepted and spliced, and is complete when that
/// is over.
pub proof fn law_way_of_a_plain_tunnel(t: TunnelView, now: Clock)
    requires
        !t.decrypt,
    ensures
        t.stage is Dialing ==> ({
            let (u, step) = advanced(t, TunnelNews::Dialed(None), now);
            &&& step.action == TunnelActionView::Accept { status: 200 }
            &&& step.event is None
            &&& u == (TunnelView { stage: TunnelStage::Upgrading, ..t })
        }),
        t.stage is Upgrading ==> ({
            let (u, step) = advanced(t, TunnelNews::Upgraded(None), now);
            &&& step.action is Splice
            &&& step.event is None
            &&& u == (TunnelView { stage: TunnelStage::Splicing, ..t })
        }),
        t.stage is Splicing ==> ({
            let (u, step) = advanced(t, TunnelNews::Spliced(None), now);
            &&& step.action is Close
            &&& step.event == Some(EventView::ExchangeCompleted(u.exchange))
            &&& u.stage is Closed
            &&& u.exchange.state is Complete
            &&& u.exchange.timing.completed_at == Some(now.monotonic)
            &&& same_record(u.exchange, t.exchange)
        }),
{
}

/// Where all goes well, a tunnel that is decrypted gets a certificate for the host of the other
/// end, shakes hands with the client and is served, and is complete when that is over.
pub proof fn law_way_of_a_decrypted_tunnel(t: TunnelView, now: Clock)
    requires
        t.decrypt,
    ensures
        t.stage is Upgrading ==> ({
            let (u, step) = advanced(t, TunnelNews::Upgraded(None), now);
            &&& step.action == TunnelActionView::Issue(host_port(t.authority).0)
            &&& step.event is None
            &&& u == (TunnelView { stage: TunnelStage::Issuing, ..t })
        }),
        t.stage is Issuing ==> ({
            let (u, step) = advanced(t, TunnelNews::Issued(true), now);
            &&& step.action is Handshake
            &&& step.event is None
            &&& u == (TunnelView { stage: TunnelStage::Handshaking, ..t })
        }),
        t.stage is Handshaking ==> ({
            let (u, step) = advanced(t, TunnelNews::Shaken(None), now);
            &&& step.action == TunnelActionView::Serve(t.authority)
            &&& step.event is None
            &&& u == (TunnelView { stage: TunnelStage::Serving, ..t })
        }),
        t.stage is Serving ==> ({
            let (u, step) = advanced(t, TunnelNews::Served(None), now);
            &&& step.action is Close
            &&& step.event == Some(EventView::ExchangeCompleted(u.exchange))
            &&& u.stage is Closed
            &&& u.exchange.state is Complete
            &&& u.exchange.timing.completed_at == Some(now.monotonic)
            &&& same_record(u.exchange, t.exchange)
        }),
{
}

/// Trouble ends a tunnel: with a refusal of status 502 if the other end could not be reached, else
/// by closing it. The exchange has then failed, with words for where the trouble arose.
pub proof fn law_trouble_ends_a_tunnel(t: TunnelView, news: TunnelNews, e: String, now: Clock)
    requires
        awaited(t.stage, news),
    ensures
        ({
            let (u, step) = advanced(t, news, now);
            let failed = {
                &&& u.stage is Closed
                &&& u.exchange.state is Failed
                &&& u.exchange.timing.completed_at == Some(now.monotonic)
                &&& same_record(u.exchange, t.exchange)
                &&& step.event == Some(EventView::ExchangeCompleted(u.exchange))
            };
            let a = t.authority;
            let said = u.exchange.error;
            &&& news == TunnelNews::Dialed(Some(e)) ==> failed && said == Some("connect: "@ + e@)
                && step.action == (TunnelActionView::Refuse { status: 502 })
            &&& news == TunnelNews::Upgraded(Some(e)) ==> failed && said == Some("upgrade: "@ + e@)
                && step.action is Close
            &&& news is NotPlain ==> failed && said == Some("upgrade downcast failed"@)
                && step.action is Close
            &&& news == TunnelNews::Spliced(Some(e)) ==> failed && said == Some("tunnel: "@ + e@)
                && step.action is Close
            &&& news == TunnelNews::Issued(false) ==> failed && said == Some(
                "leaf cert for "@ + a + " failed"@,
            ) && step.action is Close
            &&& news == TunnelNews::Shaken(Some(e)) ==> failed && said == Some(
                "client TLS handshake ("@ + a + "): "@ + e@,
            ) && step.action is Close
            &&& news == TunnelNews::Served(Some(e)) ==> failed && said == Some(
                "mitm session ("@ + a + "): "@ + e@,
            ) && step.action is Close
        }),
{
}

/// Every stage but the last waits for news of its own work, and for no other.
pub proof fn law_news_of_each_stage(news: TunnelNews)
    ensures
        awaited(TunnelStage::Dialing, news) <==> news is Dialed,
        awaited(TunnelStage::Upgrading, news) <==> news is Upgraded || news is NotPlain,
        awaited(TunnelStage::Splicing, news) <==> news is Spliced,
        awaited(TunnelStage::Issuing, news) <==> news is Issued,
        awaited(TunnelStage::Handshaking, news) <==> news is Shaken,
        awaited(TunnelStage::Serving, news) <==> news is Served,
        !awaited(TunnelStage::Closed, news),
{
}

/// A step of a tunnel says its event and what is to be done.
pub proof fn law_tunnel_steps_are_seen(s: TunnelStep, a: String, status: u16)
    ensures
        s@.action == s.action@,
        s@.event == opt_event(s.event),
        TunnelAction::Dial(a)@ == TunnelActionView::Dial(a@),
        (TunnelAction::Accept { status })@ == (TunnelActionView::Accept { status }),
        (TunnelAction::Refuse { status })@ == (TunnelActionView::Refuse { status }),
        TunnelAction::Splice@ is Splice,
        TunnelAction::Issue(a)@ == TunnelActionView::Issue(a@),
        TunnelAction::Handshake@ is Handshake,
        TunnelAction::Serve(a)@ == TunnelActionView::Serve(a@),
        TunnelAction::Close@ is Close,
{
}

} // verus!
