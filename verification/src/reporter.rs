//! The execution reporter: it turns the book's outcome list into the event
//! vocabulary consumed by callers and by the persistence collaborator.  The
//! reporter performs no matching and holds no book state, and it
//! preserves the emission order exactly — persisted history must reproduce
//! the sequence of fills as the book produced it.

use vstd::prelude::*;

use crate::types::Outcome;
use crate::types::OrderStatus;
use crate::types::RejectReason;

verus! {

/// The outbound event vocabulary.
#[derive(Clone, Copy, Debug, PartialEq, Eq, Structural)]
pub enum Event {
    /// The request's order was admitted or resolved; carries its remaining
    /// quantity and final status.
    OrderAccepted { order_id: u64, leaves_qty: u64, status: OrderStatus },
    /// The request was refused.
    OrderRejected { order_id: Option<u64>, reason: RejectReason },
    /// One fill, keyed for persistence by its monotonically increasing
    /// `sequence`.
    TradeExecuted {
        trade_id: u64,
        aggressor_order_id: u64,
        resting_order_id: u64,
        instrument_id: u64,
        price: u64,
        qty: u64,
        sequence: u64,
    },
    /// A resting order's status moved.
    OrderStatusChanged { order_id: u64, status: OrderStatus },
}

/// The event a single outcome translates to.
pub open spec fn event_of(o: Outcome) -> Event {
    match o {
        Outcome::Accepted { order_id, leaves_qty, status } => Event::OrderAccepted {
            order_id,
            leaves_qty,
            status,
        },
        Outcome::Rejected { order_id, reason } => Event::OrderRejected {
            order_id: Some(order_id),
            reason,
        },
        Outcome::Traded { trade } => Event::TradeExecuted {
            trade_id: trade.trade_id,
            aggressor_order_id: trade.aggressor_order_id,
            resting_order_id: trade.resting_order_id,
            instrument_id: trade.instrument_id,
            price: trade.price,
            qty: trade.exec_qty,
            sequence: trade.sequence,
        },
        Outcome::StatusChanged { order_id, status } => Event::OrderStatusChanged {
            order_id,
            status,
        },
    }
}

/// Translates an outcome list into events, one for one and in order.
pub fn report(outcomes: &Vec<Outcome>) -> (r: Vec<Event>)
    ensures
        r@.len() == outcomes@.len(),
        forall|i: int| 0 <= i < r@.len() ==> r@[i] == event_of(#[trigger] outcomes@[i]),
{
    let n = outcomes.len();
    let mut events: Vec<Event> = Vec::new();
    let mut i: usize = 0;
    while i < n
        invariant
            n == outcomes@.len(),
            i <= n,
            events@.len() == i,
            forall|j: int| 0 <= j < i ==> events@[j] == event_of(#[trigger] outcomes@[j]),
        decreases n - i,
    {
        let e = match outcomes[i] {
            Outcome::Accepted { order_id, leaves_qty, status } => Event::OrderAccepted {
                order_id,
                leaves_qty,
                status,
            },
            Outcome::Rejected { order_id, reason } => Event::OrderRejected {
                order_id: Some(order_id),
                reason,
            },
            Outcome::Traded { trade } => Event::TradeExecuted {
                trade_id: trade.trade_id,
                aggressor_order_id: trade.aggressor_order_id,
                resting_order_id: trade.resting_order_id,
                instrument_id: trade.instrument_id,
                price: trade.price,
                qty: trade.exec_qty,
                sequence: trade.sequence,
            },
            Outcome::StatusChanged { order_id, status } => Event::OrderStatusChanged {
                order_id,
                status,
            },
        };
        events.push(e);
        i += 1;
    }
    events
}

} // verus!
