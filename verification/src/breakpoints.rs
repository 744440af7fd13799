//! Breakpoints: a request is held until the operator decides on it.

use crate::text;
use crate::text::has_text;
use std::collections::HashMap;
use tokio::sync::oneshot::Sender;
use vstd::prelude::*;

verus! {

/// The end of a channel that takes one value (`tokio::sync::oneshot::Sender`).
#[verifier::external_type_specification]
#[verifier::external_body]
#[verifier::reject_recursive_types(T)]
pub struct ExSender<T>(tokio::sync::oneshot::Sender<T>);

/// What the operator decides on a held request.
#[derive(Debug, Clone, Copy, PartialEq, Eq, Structural)]
pub enum BreakpointDecision {
    /// Send the request on its way.
    Continue,
    /// Refuse it.
    Drop,
}

/// The decision was sent through this end of the channel, and the other end took it, or not.
pub uninterp spec fn sent(
    tx: Sender<BreakpointDecision>,
    decision: BreakpointDecision,
    taken: bool,
) -> bool;

/// `oneshot::Sender::send`: hands the decision to the receiver, or gives it back if the receiver
/// is gone. Whether it is gone depends on the other task.
#[verifier::external_body]
fn send_decision(tx: Sender<BreakpointDecision>, decision: BreakpointDecision) -> (r: Result<
    (),
    BreakpointDecision,
>)
    ensures
        r matches Err(back) ==> back == decision,
        sent(tx, decision, r is Ok),
{
    tx.send(decision)
}

/// The decision was sent through this end of the channel, whether or not it was taken.
pub open spec fn offered(tx: Sender<BreakpointDecision>, decision: BreakpointDecision) -> bool {
    sent(tx, decision, true) || sent(tx, decision, false)
}

/// A decision on its way to the request that waits for it.
pub struct Release {
    pub id: u64,
    pub waiter: Sender<BreakpointDecision>,
    pub decision: BreakpointDecision,
}

impl Release {
    /// Hands the decision over. It comes back if the request was no longer waiting.
    fn deliver(self) -> (r: Result<(), BreakpointDecision>)
        ensures
            r matches Err(back) ==> back == self.decision,
            sent(self.waiter, self.decision, r is Ok),
    {
        send_decision(self.waiter, self.decision)
    }
}

/// Which requests are to be held, and which are.
pub struct BreakpointHub {
    enabled: bool,
    pattern: String,
    pending: HashMap<u64, Sender<BreakpointDecision>>,
}

/// What a hub says.
pub struct HubView {
    pub enabled: bool,
    pub pattern: Seq<char>,
    pub pending: Map<u64, Sender<BreakpointDecision>>,
}

impl HubView {
    /// A request to this URI is to be held.
    pub open spec fn holds(self, uri: Seq<char>) -> bool {
        self.enabled && self.pattern.len() > 0 && has_text(uri, self.pattern)
    }
}

impl View for BreakpointHub {
    type V = HubView;

    closed spec fn view(&self) -> HubView {
        HubView { enabled: self.enabled, pattern: self.pattern@, pending: self.pending@ }
    }
}

/// The hub with one request more that waits.
pub open spec fn registered(h: HubView, id: u64, tx: Sender<BreakpointDecision>) -> HubView {
    HubView { pending: h.pending.insert(id, tx), ..h }
}

/// The hub without this request.
pub open spec fn released(h: HubView, id: u64) -> HubView {
    HubView { pending: h.pending.remove(id), ..h }
}

/// The hub with no request that waits.
pub open spec fn all_released(h: HubView) -> HubView {
    HubView { pending: Map::empty(), ..h }
}

impl Default for BreakpointHub {
    fn default() -> (r: Self)
        ensures
            r@ == (HubView { enabled: false, pattern: Seq::empty(), pending: Map::empty() }),
    {
        BreakpointHub { enabled: false, pattern: String::new(), pending: HashMap::new() }
    }
}

impl BreakpointHub {
    /// A hub that holds nothing yet.
    pub fn new(pattern: &str, enabled: bool) -> (r: Self)
        ensures
            r@ == (HubView { enabled, pattern: pattern@, pending: Map::empty() }),
    {
        BreakpointHub { enabled, pattern: pattern.to_string(), pending: HashMap::new() }
    }

    /// Turns holding on or off.
    pub fn set_enabled(&mut self, on: bool)
        ensures
            final(self)@ == (HubView { enabled: on, ..old(self)@ }),
    {
        self.enabled = on;
    }

    /// Whether holding is on.
    pub fn enabled(&self) -> (r: bool)
        ensures
            r == self@.enabled,
    {
        self.enabled
    }

    /// Sets what a URI must contain to be held.
    pub fn set_pattern(&mut self, pattern: &str)
        ensures
            final(self)@ == (HubView { pattern: pattern@, ..old(self)@ }),
    {
        self.pattern = pattern.to_string();
    }

    /// What a URI must contain to be held.
    pub fn pattern(&self) -> (r: String)
        ensures
            r@ == self@.pattern,
    {
        self.pattern.clone()
    }

    /// Whether a request to this URI is to be held.
    pub fn should_hold(&self, uri: &str) -> (r: bool)
        ensures
            r == self@.holds(uri@),
    {
        self.enabled && !self.pattern.as_str().is_empty() && text::contains(
            uri,
            self.pattern.as_str(),
        )
    }

    /// Notes that a request waits.
    pub fn register(&mut self, id: u64, tx: Sender<BreakpointDecision>)
        ensures
            final(self)@ == registered(old(self)@, id, tx),
    {
        broadcast use vstd::std_specs::hash::group_hash_axioms;

        self.pending.insert(id, tx);
    }

    /// Takes a request off the list of those that wait, with the decision on it.
    pub fn release(&mut self, id: u64, decision: BreakpointDecision) -> (r: Option<Release>)
        ensures
            final(self)@ == released(old(self)@, id),
            r == (if old(self)@.pending.dom().contains(id) {
                Some(Release { id, waiter: old(self)@.pending[id], decision })
            } else {
                None
            }),
    {
        broadcast use vstd::std_specs::hash::group_hash_axioms;

        match self.pending.remove(&id) {
            Some(waiter) => Some(Release { id, waiter, decision }),
            None => None,
        }
    }

    /// Decides on a request: a waiting one is sent the decision. True if it was delivered.
    pub fn resolve(&mut self, id: u64, decision: BreakpointDecision) -> (r: bool)
        ensures
            final(self)@ == released(old(self)@, id),
            old(self)@.pending.dom().contains(id) ==> sent(
                old(self)@.pending[id],
                decision,
                r,
            ),
            !old(self)@.pending.dom().contains(id) ==> !r,
    {
        match self.release(id, decision) {
            Some(release) => release.deliver().is_ok(),
            None => false,
        }
    }

    /// The requests that wait, each once, in no particular order.
    pub fn pending(&self) -> (r: Vec<u64>)
        ensures
            r@.no_duplicates(),
            r@.to_set() == self@.pending.dom(),
            r@.len() == self@.pending.dom().len(),
    {
        broadcast use vstd::std_specs::hash::group_hash_axioms;

        let mut ids: Vec<u64> = Vec::new();
        let ghost all = vstd::std_specs::iter::IteratorSpec::remaining(
            &vstd::std_specs::hash::spec_keys_iter(&self.pending),
        ).unref();
        for k in it: self.pending.keys()
            invariant
                it.seq().unref() == all,
                ids@ == all.take(it.index()),
        {
            ids.push(*k);
        }
        assert(all.take(all.len() as int) =~= all);
        ids
    }

    /// Takes every request off the list, with one decision on all.
    pub fn release_all(&mut self, decision: BreakpointDecision) -> (r: Vec<Release>)
        ensures
            final(self)@ == all_released(old(self)@),
            r@.len() == old(self)@.pending.dom().len(),
            forall|i: int|
                0 <= i < r@.len() ==> {
                    &&& old(self)@.pending.dom().contains((#[trigger] r@[i]).id)
                    &&& r@[i].waiter == old(self)@.pending[r@[i].id]
                    &&& r@[i].decision == decision
                },
            forall|i: int, j: int|
                0 <= i < j < r@.len() ==> (#[trigger] r@[i]).id != (#[trigger] r@[j]).id,
            forall|id: u64| #[trigger]
                old(self)@.pending.dom().contains(id) ==> exists|i: int|
                    0 <= i < r@.len() && (#[trigger] r@[i]).id == id,
    {
        let ids = self.pending();
        let ghost all = self@.pending;
        let mut out: Vec<Release> = Vec::new();
        let mut i: usize = 0;
        while i < ids.len()
            invariant
                i <= ids@.len(),
                ids@.no_duplicates(),
                ids@.to_set() == all.dom(),
                all == old(self)@.pending,
                self@.enabled == old(self)@.enabled,
                self@.pattern == old(self)@.pattern,
                self@.pending == all.remove_keys(ids@.take(i as int).to_set()),
                out@.len() == i,
                forall|k: int|
                    0 <= k < i ==> {
                        &&& (#[trigger] out@[k]).id == ids@[k]
                        &&& out@[k].waiter == all[ids@[k]]
                        &&& out@[k].decision == decision
                    },
            decreases ids@.len() - i,
        {
            assert(ids@.to_set().contains(ids@[i as int]));
            assert(self@.pending.dom().contains(ids@[i as int]));
            match self.release(ids[i], decision) {
                Some(release) => {
                    out.push(release);
                },
                None => {},
            }
            assert(self@.pending =~= all.remove_keys(ids@.take(i + 1).to_set())) by {
                assert(ids@.take(i + 1) =~= ids@.take(i as int).push(ids@[i as int]));
                lemma_push_to_set(ids@.take(i as int), ids@[i as int]);
            }
            i += 1;
        }
        assert(ids@.take(i as int) =~= ids@);
        assert(self@.pending =~= Map::empty());
        assert forall|k: int| 0 <= k < out@.len() implies {
            &&& old(self)@.pending.dom().contains((#[trigger] out@[k]).id)
            &&& out@[k].waiter == old(self)@.pending[out@[k].id]
            &&& out@[k].decision == decision
        } by {
            assert(ids@.to_set().contains(ids@[k]));
        }
        assert forall|id: u64| #[trigger] old(self)@.pending.dom().contains(id) implies exists|
            k: int,
        | 0 <= k < out@.len() && (#[trigger] out@[k]).id == id by {
            assert(ids@.to_set().contains(id));
            let k = choose|k: int| 0 <= k < ids@.len() && ids@[k] == id;
            assert(out@[k].id == id);
        }
        out
    }

    /// Decides on every request that waits: each is sent the decision. Says how many there were.
    pub fn resolve_all(&mut self, decision: BreakpointDecision) -> (n: usize)
        ensures
            final(self)@ == all_released(old(self)@),
            n == old(self)@.pending.dom().len(),
            forall|id: u64| #[trigger]
                old(self)@.pending.dom().contains(id) ==> offered(
                    old(self)@.pending[id],
                    decision,
                ),
    {
        let mut rest = self.release_all(decision);
        let n: usize = rest.len();
        let ghost all = rest@;
        while rest.len() > 0
            invariant
                rest@.len() <= all.len(),
                rest@ == all.take(rest@.len() as int),
                forall|k: int| 0 <= k < all.len() ==> (#[trigger] all[k]).decision == decision,
                forall|k: int|
                    rest@.len() <= k < all.len() ==> offered(
                        (#[trigger] all[k]).waiter,
                        decision,
                    ),
            decreases rest@.len(),
        {
            match rest.pop() {
                Some(release) => {
                    assert(release == all[rest@.len() as int]);
                    let _ = release.deliver();
                },
                None => {},
            }
            assert(rest@ =~= all.take(rest@.len() as int));
        }
        n
    }
}

proof fn lemma_push_to_set(s: Seq<u64>, x: u64)
    ensures
        s.push(x).to_set() == s.to_set().insert(x),
{
    assert forall|a: u64|
        s.push(x).to_set().contains(a) == s.to_set().insert(x).contains(a) by {
        if s.contains(a) {
            let k = choose|k: int| 0 <= k < s.len() && s[k] == a;
            assert(s.push(x)[k] == a);
        }
        assert(s.push(x)[s.len() as int] == x);
    }
    assert(s.push(x).to_set() =~= s.to_set().insert(x));
}

// ---------------------------------------------------------------- laws

/// A hub that is off, or has no pattern, holds nothing.
pub proof fn law_hub_off_holds_nothing(hub: HubView, uri: Seq<char>)
    requires
        !hub.enabled || hub.pattern.len() == 0,
    ensures
        !hub.holds(uri),
{
}

/// A request that is registered waits until it is released; releasing it leaves the others.
pub proof fn law_registered_waits_until_released(
    hub: HubView,
    id: u64,
    tx: Sender<BreakpointDecision>,
    other: u64,
)
    ensures
        hub.pending.insert(id, tx).dom().contains(id),
        !hub.pending.insert(id, tx).remove(id).dom().contains(id),
        !hub.pending.dom().contains(id) ==> hub.pending.insert(id, tx).remove(id) == hub.pending,
        other != id ==> hub.pending.remove(id).dom().contains(other) == hub.pending.dom().contains(
            other,
        ),
{
    if !hub.pending.dom().contains(id) {
        assert(hub.pending.insert(id, tx).remove(id) =~= hub.pending);
    }
}

/// A hub that is on holds the requests whose URI contains its pattern, and no others.
pub proof fn law_hub_holds_its_pattern(hub: HubView, a: Seq<char>, b: Seq<char>, uri: Seq<char>)
    ensures
        hub.enabled && hub.pattern.len() > 0 ==> hub.holds(a + hub.pattern + b),
        hub.holds(uri) ==> hub.enabled && hub.pattern.len() > 0 && exists|
            x: Seq<char>,
            y: Seq<char>,
        | uri == #[trigger] (x + hub.pattern + y),
{
    text::law_has_text(a, hub.pattern, b, uri);
}

/// A request that is registered waits with its end of the channel; one that is released waits no
/// more; releasing all leaves none. What the hub holds for, and the other requests, stay.
pub proof fn law_waiting(h: HubView, id: u64, tx: Sender<BreakpointDecision>, other: u64)
    ensures
        registered(h, id, tx).pending.contains_key(id),
        registered(h, id, tx).pending[id] == tx,
        !released(h, id).pending.contains_key(id),
        other != id ==> {
            &&& registered(h, id, tx).pending.contains_key(other) == h.pending.contains_key(other)
            &&& released(h, id).pending.contains_key(other) == h.pending.contains_key(other)
            &&& h.pending.contains_key(other) ==> registered(h, id, tx).pending[other]
                == h.pending[other] && released(h, id).pending[other] == h.pending[other]
        },
        !all_released(h).pending.contains_key(other),
        registered(h, id, tx).enabled == h.enabled && registered(h, id, tx).pattern == h.pattern,
        released(h, id).enabled == h.enabled && released(h, id).pattern == h.pattern,
        all_released(h).enabled == h.enabled && all_released(h).pattern == h.pattern,
{
}

} // verus!
