//! The numbers that exchanges and connections get.

use crate::model::{ConnectionId, ExchangeId};
use vstd::prelude::*;

verus! {

/// Gives out numbers.
#[derive(Debug)]
pub struct Ids {
    next_exchange: u64,
    next_connection: u64,
}

/// Which numbers come next.
pub struct IdsView {
    pub next_exchange: u64,
    pub next_connection: u64,
}

impl View for Ids {
    type V = IdsView;

    closed spec fn view(&self) -> IdsView {
        IdsView { next_exchange: self.next_exchange, next_connection: self.next_connection }
    }
}

/// The number `n` places behind `from`; behind the largest comes zero.
pub open spec fn place(from: u64, n: nat) -> u64 {
    ((from + n) % 0x1_0000_0000_0000_0000) as u64
}

/// The numbers that come next, once an exchange has got one.
pub open spec fn exchange_counted(s: IdsView) -> IdsView {
    IdsView { next_exchange: place(s.next_exchange, 1), ..s }
}

/// The numbers that come next, once a connection has got one.
pub open spec fn connection_counted(s: IdsView) -> IdsView {
    IdsView { next_connection: place(s.next_connection, 1), ..s }
}

impl Default for Ids {
    fn default() -> (r: Self)
        ensures
            r@ == (IdsView { next_exchange: 1, next_connection: 1 }),
    {
        Ids::new()
    }
}

impl Ids {
    /// Numbers from one on.
    pub fn new() -> (r: Self)
        ensures
            r@ == (IdsView { next_exchange: 1, next_connection: 1 }),
    {
        Ids { next_exchange: 1, next_connection: 1 }
    }

    /// A number for an exchange.
    pub fn new_exchange_id(&mut self) -> (r: ExchangeId)
        ensures
            r == ExchangeId(old(self)@.next_exchange),
            final(self)@ == exchange_counted(old(self)@),
    {
        let id: u64 = self.next_exchange;
        self.next_exchange = id.wrapping_add(1);
        ExchangeId(id)
    }

    /// A number for a connection.
    pub fn new_connection_id(&mut self) -> (r: ConnectionId)
        ensures
            r == ConnectionId(old(self)@.next_connection),
            final(self)@ == connection_counted(old(self)@),
    {
        let id: u64 = self.next_connection;
        self.next_connection = id.wrapping_add(1);
        ConnectionId(id)
    }
}

/// The number after the one `n` places on is the one `n + 1` places on.
pub proof fn law_places_follow_each_other(from: u64, n: nat)
    ensures
        place(place(from, n), 1) == place(from, n + 1),
{
}

/// No two of the numbers that are given out are the same, until all have been.
pub proof fn law_numbers_are_distinct(from: u64, i: nat, j: nat)
    requires
        i < j < i + 0x1_0000_0000_0000_0000,
    ensures
        place(from, i) != place(from, j),
{
}

/// Numbers are given out one by one: the one `n` places on is greater by `n`, and behind the
/// largest the count starts at zero again.
pub proof fn law_places_count_up(from: u64, n: nat)
    ensures
        from + n <= u64::MAX ==> place(from, n) == from + n,
        u64::MAX < from + n <= u64::MAX + 1 + u64::MAX ==> place(from, n) == from + n - u64::MAX
            - 1,
{
}

/// Exchanges and connections are counted apart, each by one.
pub proof fn law_counted_apart(s: IdsView)
    ensures
        s.next_exchange < u64::MAX ==> exchange_counted(s).next_exchange == s.next_exchange + 1,
        exchange_counted(s).next_connection == s.next_connection,
        s.next_connection < u64::MAX ==> connection_counted(s).next_connection
            == s.next_connection + 1,
        connection_counted(s).next_exchange == s.next_exchange,
{
}

} // verus!
