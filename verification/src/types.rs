//! The data vocabulary of the matching engine: sides, order kinds, statuses,
//! rejection reasons, the resting [`Order`] record and the immutable [`Trade`]
//! execution record, and the [`Outcome`] list a book returns for one request.

use vstd::prelude::*;

verus! {

/// Which side of the book an order belongs to.
#[derive(Clone, Copy, Debug, PartialEq, Eq, Structural)]
pub enum Side {
    Bid,
    Ask,
}

impl Side {
    /// The side an incoming order matches against.
    pub fn opposite(self) -> (r: Side)
        ensures
            r == self.spec_opposite(),
    {
        match self {
            Side::Bid => Side::Ask,
            Side::Ask => Side::Bid,
        }
    }

    pub open spec fn spec_opposite(self) -> Side {
        match self {
            Side::Bid => Side::Ask,
            Side::Ask => Side::Bid,
        }
    }
}

/// Whether an order carries a limit price or trades at whatever the book offers.
#[derive(Clone, Copy, Debug, PartialEq, Eq, Structural)]
pub enum OrderType {
    Limit,
    Market,
}

/// The lifecycle state of an order.  `Filled`, `Canceled` and `Rejected` are
/// terminal; only `Accepted` and `PartiallyFilled` orders may rest in a queue.
#[derive(Clone, Copy, Debug, PartialEq, Eq, Structural)]
pub enum OrderStatus {
    Accepted,
    PartiallyFilled,
    Filled,
    Canceled,
    Rejected,
}

/// Why a request was refused.  Every reason is recoverable at the caller's
/// request boundary; none is fatal to the book.
#[derive(Clone, Copy, Debug, PartialEq, Eq, Structural)]
pub enum RejectReason {
    DuplicateOrderId,
    Forbidden,
    NotFound,
    UnknownInstrument,
    InvalidQuantity,
}

/// The configured ceiling on a single order's quantity.
pub const MAX_ORDER_QTY: u64 = 1_000_000_000_000;

/// A resting or newly admitted intent to trade.  `sequence` is the arrival
/// stamp assigned once at admission; it is the time-priority tie-break and is
/// never recomputed while the order rests.
#[derive(Clone, Copy, Debug, PartialEq, Eq, Structural)]
pub struct Order {
    pub order_id: u64,
    pub account_id: u64,
    pub instrument_id: u64,
    pub side: Side,
    pub order_type: OrderType,
    /// Required for `Limit` orders; ignored (zero) for `Market` orders.
    pub limit_price: u64,
    pub initial_qty: u64,
    pub leaves_qty: u64,
    pub status: OrderStatus,
    pub sequence: u64,
}

impl Order {
    /// A well-formed order record: positive initial size under the ceiling,
    /// and a remaining quantity that never exceeds it.
    pub open spec fn wf(self) -> bool {
        &&& 0 < self.initial_qty <= MAX_ORDER_QTY
        &&& self.leaves_qty <= self.initial_qty
    }

    /// An order that may rest in a queue: unfilled quantity remains and the
    /// status is non-terminal.
    pub open spec fn restable(self) -> bool {
        &&& self.wf()
        &&& self.leaves_qty > 0
        &&& (self.status == OrderStatus::Accepted || self.status == OrderStatus::PartiallyFilled)
    }
}

/// An immutable execution record, created atomically with each match.
/// `sequence` is the venue-wide event stamp under which the trade is
/// persisted and replayed; this engine also uses it as the trade id.
#[derive(Clone, Copy, Debug, PartialEq, Eq, Structural)]
pub struct Trade {
    pub trade_id: u64,
    pub aggressor_order_id: u64,
    pub resting_order_id: u64,
    pub instrument_id: u64,
    pub price: u64,
    pub exec_qty: u64,
    pub sequence: u64,
}

/// One element of the ordered outcome list a book returns for a request:
/// fills first, in the order they were generated, then the final state of
/// the order the request was about.
#[derive(Clone, Copy, Debug, PartialEq, Eq, Structural)]
pub enum Outcome {
    /// The request's order was admitted (or survived the request); carries its
    /// remaining quantity and final status.
    Accepted { order_id: u64, leaves_qty: u64, status: OrderStatus },
    /// The request was refused; no state changed on its account.
    Rejected { order_id: u64, reason: RejectReason },
    /// One fill against a resting order.
    Traded { trade: Trade },
    /// A resting order's status moved as a consequence of the request.
    StatusChanged { order_id: u64, status: OrderStatus },
}

} // verus!
