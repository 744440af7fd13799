//! What the proxy tells those who watch it.

use crate::model::{ConnectionId, Exchange, ExchangeView};
use tokio::sync::broadcast;
use vstd::prelude::*;

verus! {

/// An event of the proxy.
#[derive(Debug)]
pub enum ProxyEvent {
    ExchangeStarted(Exchange),
    ExchangeUpdated(Exchange),
    ExchangeCompleted(Exchange),
    ConnectionOpened(ConnectionId),
    ConnectionClosed(ConnectionId),
    /// The exchange waits for the decision of the operator.
    BreakpointHit(Exchange),
    Error(String),
}

/// What an event says.
pub enum EventView {
    ExchangeStarted(ExchangeView),
    ExchangeUpdated(ExchangeView),
    ExchangeCompleted(ExchangeView),
    ConnectionOpened(ConnectionId),
    ConnectionClosed(ConnectionId),
    BreakpointHit(ExchangeView),
    Error(Seq<char>),
}

impl View for ProxyEvent {
    type V = EventView;

    open spec fn view(&self) -> EventView {
        match *self {
            ProxyEvent::ExchangeStarted(e) => EventView::ExchangeStarted(e@),
            ProxyEvent::ExchangeUpdated(e) => EventView::ExchangeUpdated(e@),
            ProxyEvent::ExchangeCompleted(e) => EventView::ExchangeCompleted(e@),
            ProxyEvent::ConnectionOpened(id) => EventView::ConnectionOpened(id),
            ProxyEvent::ConnectionClosed(id) => EventView::ConnectionClosed(id),
            ProxyEvent::BreakpointHit(e) => EventView::BreakpointHit(e@),
            ProxyEvent::Error(s) => EventView::Error(s@),
        }
    }
}

impl Clone for ProxyEvent {
    fn clone(&self) -> (r: Self)
        ensures
            r@ == self@,
    {
        match self {
            ProxyEvent::ExchangeStarted(e) => ProxyEvent::ExchangeStarted(e.clone()),
            ProxyEvent::ExchangeUpdated(e) => ProxyEvent::ExchangeUpdated(e.clone()),
            ProxyEvent::ExchangeCompleted(e) => ProxyEvent::ExchangeCompleted(e.clone()),
            ProxyEvent::ConnectionOpened(id) => ProxyEvent::ConnectionOpened(*id),
            ProxyEvent::ConnectionClosed(id) => ProxyEvent::ConnectionClosed(*id),
            ProxyEvent::BreakpointHit(e) => ProxyEvent::BreakpointHit(e.clone()),
            ProxyEvent::Error(s) => ProxyEvent::Error(s.clone()),
        }
    }
}

/// What an optional event says.
pub open spec fn opt_event(e: Option<ProxyEvent>) -> Option<EventView> {
    match e {
        Some(x) => Some(x@),
        None => None,
    }
}

// ---------------------------------------------------------------- the bus

/// The sending end of a channel that gives every value to every receiver
/// (`tokio::sync::broadcast::Sender`).
#[verifier::external_type_specification]
#[verifier::external_body]
#[verifier::reject_recursive_types(T)]
pub struct ExBroadcastSender<T>(tokio::sync::broadcast::Sender<T>);

/// A receiving end of such a channel (`tokio::sync::broadcast::Receiver`).
#[verifier::external_type_specification]
#[verifier::external_body]
#[verifier::reject_recursive_types(T)]
pub struct ExBroadcastReceiver<T>(tokio::sync::broadcast::Receiver<T>);

/// How many events the channel was made to hold back for a slow receiver.
pub uninterp spec fn room_of(s: broadcast::Sender<ProxyEvent>) -> nat;

/// Whether a receiver gets what this sender sends.
pub uninterp spec fn hears(
    r: broadcast::Receiver<ProxyEvent>,
    s: broadcast::Sender<ProxyEvent>,
) -> bool;

/// The event was sent through this end of the channel, and put there for every receiver that the
/// channel has, or not taken because it has none.
pub uninterp spec fn sent(
    s: broadcast::Sender<ProxyEvent>,
    event: EventView,
    taken: bool,
) -> bool;

/// `broadcast::channel`: a channel that holds back this many events. It panics where there is no
/// room, or more than half of what can be counted.
#[verifier::external_body]
fn open_channel(room: usize) -> (r: broadcast::Sender<ProxyEvent>)
    requires
        0 < room <= usize::MAX / 2,
    ensures
        room_of(r) == room,
{
    broadcast::channel(room).0
}

/// `broadcast::Sender::subscribe`: a receiver of what is sent from now on.
#[verifier::external_body]
fn join_channel(s: &broadcast::Sender<ProxyEvent>) -> (r: broadcast::Receiver<ProxyEvent>)
    ensures
        hears(r, *s),
{
    s.subscribe()
}

/// `broadcast::Sender::clone`: a second sending end of the same channel.
#[verifier::external_body]
fn share_channel(s: &broadcast::Sender<ProxyEvent>) -> (r: broadcast::Sender<ProxyEvent>)
    ensures
        room_of(r) == room_of(*s),
        forall|x: broadcast::Receiver<ProxyEvent>| #[trigger] hears(x, r) == hears(x, *s),
        forall|e: EventView, t: bool| #[trigger] sent(r, e, t) == sent(*s, e, t),
{
    s.clone()
}

/// `broadcast::Sender::send`: puts the event on the channel, for every receiver, or gives it back
/// if there is none. Whether there is one depends on the other tasks.
#[verifier::external_body]
fn send_event(s: &broadcast::Sender<ProxyEvent>, event: ProxyEvent) -> (r: Option<ProxyEvent>)
    ensures
        r is Some ==> r->0 == event,
        sent(*s, event@, r is None),
{
    s.send(event).err().map(|e| e.0)
}

/// How many events a bus holds back for a slow subscriber.
pub const BUS_ROOM: usize = 1024;

/// The bus on which the proxy tells what happens.
pub struct EventBus {
    sender: broadcast::Sender<ProxyEvent>,
}

impl View for EventBus {
    type V = broadcast::Sender<ProxyEvent>;

    closed spec fn view(&self) -> broadcast::Sender<ProxyEvent> {
        self.sender
    }
}

impl Default for EventBus {
    fn default() -> (r: Self)
        ensures
            room_of(r@) == 1024,
    {
        EventBus::new()
    }
}

impl Clone for EventBus {
    fn clone(&self) -> (r: Self)
        ensures
            room_of(r@) == room_of(self@),
            forall|x: broadcast::Receiver<ProxyEvent>| #[trigger] hears(x, r@) == hears(x, self@),
            forall|e: EventView, t: bool| #[trigger] sent(r@, e, t) == sent(self@, e, t),
    {
        EventBus { sender: share_channel(&self.sender) }
    }
}

impl EventBus {
    /// A bus without subscribers.
    pub fn new() -> (r: Self)
        ensures
            room_of(r@) == 1024,
    {
        EventBus { sender: open_channel(BUS_ROOM) }
    }

    /// A new subscriber. Each gets every event.
    pub fn subscribe(&self) -> (r: broadcast::Receiver<ProxyEvent>)
        ensures
            hears(r, self@),
    {
        join_channel(&self.sender)
    }

    /// Publishes an event: it is sent through the channel, and comes back if nobody listens.
    pub fn publish(&self, event: ProxyEvent) -> (r: Option<ProxyEvent>)
        ensures
            r is Some ==> r->0@ == event@,
            sent(self@, event@, r is None),
    {
        send_event(&self.sender, event)
    }
}

// ---------------------------------------------------------------- laws

/// An event says what it is and what it is about.
pub proof fn law_events_are_seen(e: Exchange, c: ConnectionId, s: String)
    ensures
        ProxyEvent::ExchangeStarted(e)@ == EventView::ExchangeStarted(e@),
        ProxyEvent::ExchangeUpdated(e)@ == EventView::ExchangeUpdated(e@),
        ProxyEvent::ExchangeCompleted(e)@ == EventView::ExchangeCompleted(e@),
        ProxyEvent::ConnectionOpened(c)@ == EventView::ConnectionOpened(c),
        ProxyEvent::ConnectionClosed(c)@ == EventView::ConnectionClosed(c),
        ProxyEvent::BreakpointHit(e)@ == EventView::BreakpointHit(e@),
        ProxyEvent::Error(s)@ == EventView::Error(s@),
        opt_event(None) is None,
        opt_event(Some(ProxyEvent::Error(s))) == Some(EventView::Error(s@)),
{
}

} // verus!
