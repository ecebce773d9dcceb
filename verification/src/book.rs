//! The order book for a single instrument: one bid queue, one ask queue, the
//! matching algorithm, and the amend/cancel paths.
//!
//! A book is the unit of sequential consistency: every request against its
//! instrument is applied one at a time, and its whole effect is captured by
//! the pure transition functions [`spec_submit`], [`spec_amend`] and
//! [`spec_cancel`] over the ghost [`BookModel`].  The executable methods
//! promise to realise exactly those transitions.

use vstd::prelude::*;

use crate::queue::entries_wf;
use crate::queue::has_order_id;
use crate::queue::idx_of_id;
use crate::queue::insert_pos;
use crate::queue::queue_sorted;
use crate::queue::unique_order_ids;
use crate::queue::OrderQueue;
use crate::types::MAX_ORDER_QTY;
use crate::types::Order;
use crate::types::OrderStatus;
use crate::types::OrderType;
use crate::types::Outcome;
use crate::types::RejectReason;
use crate::types::Side;
use crate::types::Trade;

verus! {

/// A new-order request, already routed to this instrument's book.  The
/// caller (or the registry, on its behalf) assigns `order_id`; the book
/// assigns the arrival sequence.  `limit_price` is read only for `Limit`
/// orders.
#[derive(Clone, Copy, Debug, PartialEq, Eq, Structural)]
pub struct NewOrderReq {
    pub order_id: u64,
    pub account_id: u64,
    pub side: Side,
    pub order_type: OrderType,
    pub limit_price: u64,
    pub qty: u64,
}

/// The mathematical state of one order book.
#[verifier::ext_equal]
pub ghost struct BookModel {
    pub instrument_id: u64,
    pub bids: Seq<Order>,
    pub asks: Seq<Order>,
    /// Every order id this book has ever admitted, resting or terminal;
    /// the duplicate-rejection window never expires.
    pub known: Seq<u64>,
    /// The next arrival/event stamp; strictly above every stamp handed out.
    pub next_seq: u64,
}

impl BookModel {
    /// The queue of the given side.
    pub open spec fn own_queue(self, side: Side) -> Seq<Order> {
        match side {
            Side::Bid => self.bids,
            Side::Ask => self.asks,
        }
    }

    /// The queue an incoming order of the given side matches against.
    pub open spec fn opposite_queue(self, side: Side) -> Seq<Order> {
        match side {
            Side::Bid => self.asks,
            Side::Ask => self.bids,
        }
    }

    /// The model with the queue of `side` replaced.
    pub open spec fn with_queue(self, side: Side, s: Seq<Order>) -> BookModel {
        match side {
            Side::Bid => BookModel { bids: s, ..self },
            Side::Ask => BookModel { asks: s, ..self },
        }
    }

    /// One side's queue invariant, plus the book-level facts that tie it to
    /// the admission counter and the duplicate window.
    pub open spec fn side_wf(self, side: Side) -> bool {
        let s = self.own_queue(side);
        &&& queue_sorted(side, s)
        &&& entries_wf(side, self.instrument_id, s)
        &&& unique_order_ids(s)
        &&& forall|i: int| 0 <= i < s.len() ==> (#[trigger] s[i]).sequence < self.next_seq
        &&& forall|i: int| 0 <= i < s.len() ==> self.known.contains((#[trigger] s[i]).order_id)
    }

    /// The whole book invariant.
    pub open spec fn wf(self) -> bool {
        self.side_wf(Side::Bid) && self.side_wf(Side::Ask)
    }
}

/// Whether an incoming order may cross with a resting one: a market order
/// always may; a limit bid reaches asks priced at or below its limit; a
/// limit ask reaches bids priced at or above its limit.
pub open spec fn spec_marketable(aggr: Order, resting: Order) -> bool {
    ||| aggr.order_type == OrderType::Market
    ||| (aggr.side == Side::Bid && resting.limit_price <= aggr.limit_price)
    ||| (aggr.side == Side::Ask && resting.limit_price >= aggr.limit_price)
}

/// The smaller of two quantities.
pub open spec fn min_qty(a: u64, b: u64) -> u64 {
    if a <= b {
        a
    } else {
        b
    }
}

/// What one run of the matching loop produces.
#[verifier::ext_equal]
pub ghost struct MatchOut {
    /// Fills and resting-order status changes, in emission order.
    pub outcomes: Seq<Outcome>,
    /// The opposite queue after the loop.
    pub opp: Seq<Order>,
    /// The aggressor's remaining quantity after the loop.
    pub leaves: u64,
    /// The event stamp counter after the loop.
    pub next_seq: u64,
}

/// The matching loop of the book, as a pure function: while the aggressor
/// has quantity left and the best opposite order is marketable, trade the
/// smaller of the two remaining quantities at the resting price.  A fully
/// filled resting order is popped and the loop goes on; a partially filled
/// one keeps its place and stops the loop.
pub open spec fn spec_match(aggr: Order, opp: Seq<Order>, next_seq: u64) -> MatchOut
    decreases opp.len(),
{
    if aggr.leaves_qty == 0 || opp.len() == 0 || !spec_marketable(aggr, opp[0]) {
        MatchOut { outcomes: Seq::empty(), opp, leaves: aggr.leaves_qty, next_seq }
    } else {
        let top = opp[0];
        let exec = min_qty(aggr.leaves_qty, top.leaves_qty);
        let trade = Trade {
            trade_id: next_seq,
            aggressor_order_id: aggr.order_id,
            resting_order_id: top.order_id,
            instrument_id: top.instrument_id,
            price: top.limit_price,
            exec_qty: exec,
            sequence: next_seq,
        };
        let ctr = (next_seq + 1) as u64;
        if exec < top.leaves_qty {
            // the aggressor is exhausted; the resting order keeps its place
            let reduced = Order {
                leaves_qty: (top.leaves_qty - exec) as u64,
                status: OrderStatus::PartiallyFilled,
                ..top
            };
            MatchOut {
                outcomes: seq![
                    Outcome::Traded { trade },
                    Outcome::StatusChanged {
                        order_id: top.order_id,
                        status: OrderStatus::PartiallyFilled,
                    },
                ],
                opp: opp.update(0, reduced),
                leaves: 0,
                next_seq: ctr,
            }
        } else {
            // the resting order is filled and leaves; the loop goes on
            let rest = spec_match(
                Order { leaves_qty: (aggr.leaves_qty - exec) as u64, ..aggr },
                opp.drop_first(),
                ctr,
            );
            MatchOut {
                outcomes: seq![
                    Outcome::Traded { trade },
                    Outcome::StatusChanged { order_id: top.order_id, status: OrderStatus::Filled },
                ] + rest.outcomes,
                opp: rest.opp,
                leaves: rest.leaves,
                next_seq: rest.next_seq,
            }
        }
    }
}

/// The order record a valid new-order request is admitted as.
pub open spec fn spec_admitted(b: BookModel, req: NewOrderReq) -> Order {
    Order {
        order_id: req.order_id,
        account_id: req.account_id,
        instrument_id: b.instrument_id,
        side: req.side,
        order_type: req.order_type,
        limit_price: if req.order_type == OrderType::Market {
            0
        } else {
            req.limit_price
        },
        initial_qty: req.qty,
        leaves_qty: req.qty,
        status: OrderStatus::Accepted,
        sequence: b.next_seq,
    }
}

/// New-order processing as a pure transition: validation, duplicate
/// rejection, the matching loop, and the fate of the remainder — a limit
/// remainder rests in its own queue, a market remainder is canceled.
/// The outcome list holds the fills first, in emission order, and ends with
/// the final state of the incoming order.
pub open spec fn spec_submit(b: BookModel, req: NewOrderReq) -> (BookModel, Seq<Outcome>) {
    if req.qty == 0 || req.qty > MAX_ORDER_QTY {
        (
            b,
            seq![
                Outcome::Rejected { order_id: req.order_id, reason: RejectReason::InvalidQuantity },
            ],
        )
    } else if b.known.contains(req.order_id) {
        (
            b,
            seq![
                Outcome::Rejected { order_id: req.order_id, reason: RejectReason::DuplicateOrderId },
            ],
        )
    } else {
        let aggr = spec_admitted(b, req);
        let m = spec_match(aggr, b.opposite_queue(req.side), (b.next_seq + 1) as u64);
        let b1 = BookModel {
            known: b.known.push(req.order_id),
            next_seq: m.next_seq,
            ..b.with_queue(req.side.spec_opposite(), m.opp)
        };
        if m.leaves == 0 {
            (
                b1,
                m.outcomes + seq![
                    Outcome::Accepted {
                        order_id: req.order_id,
                        leaves_qty: 0,
                        status: OrderStatus::Filled,
                    },
                ],
            )
        } else if req.order_type == OrderType::Limit {
            let status = if m.leaves < req.qty {
                OrderStatus::PartiallyFilled
            } else {
                OrderStatus::Accepted
            };
            let rested = Order { leaves_qty: m.leaves, status, ..aggr };
            let own = b1.own_queue(req.side);
            let b2 = b1.with_queue(req.side, own.insert(insert_pos(req.side, own, rested), rested));
            (
                b2,
                m.outcomes + seq![
                    Outcome::Accepted { order_id: req.order_id, leaves_qty: m.leaves, status },
                ],
            )
        } else {
            (
                b1,
                m.outcomes + seq![
                    Outcome::Accepted {
                        order_id: req.order_id,
                        leaves_qty: m.leaves,
                        status: OrderStatus::Canceled,
                    },
                ],
            )
        }
    }
}

/// The side on which `order_id` rests, if it rests at all.
pub open spec fn spec_locate(b: BookModel, order_id: u64) -> Option<Side> {
    if has_order_id(b.bids, order_id) {
        Some(Side::Bid)
    } else if has_order_id(b.asks, order_id) {
        Some(Side::Ask)
    } else {
        None
    }
}

/// The resting order that carries `order_id`, if any.
pub open spec fn spec_find(b: BookModel, order_id: u64) -> Option<Order> {
    match spec_locate(b, order_id) {
        Some(side) => Some(b.own_queue(side)[idx_of_id(b.own_queue(side), order_id)]),
        None => None,
    }
}

/// Amend as a pure transition.  A price change or a quantity increase
/// removes the order and re-inserts it under a fresh arrival stamp — it
/// forfeits its queue position; a pure decrease is applied in place and
/// keeps it.  Amend never triggers matching.
pub open spec fn spec_amend(
    b: BookModel,
    order_id: u64,
    account_id: u64,
    new_price: Option<u64>,
    new_qty: Option<u64>,
) -> (BookModel, Seq<Outcome>) {
    match spec_locate(b, order_id) {
        None => (
            b,
            seq![Outcome::Rejected { order_id, reason: RejectReason::NotFound }],
        ),
        Some(side) => {
            let s = b.own_queue(side);
            let o = s[idx_of_id(s, order_id)];
            if o.account_id != account_id {
                (b, seq![Outcome::Rejected { order_id, reason: RejectReason::Forbidden }])
            } else {
                let price2 = match new_price {
                    Some(p) => p,
                    None => o.limit_price,
                };
                let qty2 = match new_qty {
                    Some(q) => q,
                    None => o.leaves_qty,
                };
                if qty2 == 0 || qty2 > MAX_ORDER_QTY {
                    (
                        b,
                        seq![Outcome::Rejected { order_id, reason: RejectReason::InvalidQuantity }],
                    )
                } else if price2 != o.limit_price || qty2 > o.leaves_qty {
                    let o2 = Order {
                        limit_price: price2,
                        leaves_qty: qty2,
                        initial_qty: if qty2 > o.initial_qty {
                            qty2
                        } else {
                            o.initial_qty
                        },
                        sequence: b.next_seq,
                        ..o
                    };
                    let s1 = s.remove(idx_of_id(s, order_id));
                    let s2 = s1.insert(insert_pos(side, s1, o2), o2);
                    (
                        BookModel { next_seq: (b.next_seq + 1) as u64, ..b.with_queue(side, s2) },
                        seq![
                            Outcome::Accepted { order_id, leaves_qty: qty2, status: o.status },
                        ],
                    )
                } else if qty2 < o.leaves_qty {
                    let s2 = s.update(idx_of_id(s, order_id), Order { leaves_qty: qty2, ..o });
                    (
                        b.with_queue(side, s2),
                        seq![
                            Outcome::Accepted { order_id, leaves_qty: qty2, status: o.status },
                        ],
                    )
                } else {
                    (
                        b,
                        seq![
                            Outcome::Accepted {
                                order_id,
                                leaves_qty: o.leaves_qty,
                                status: o.status,
                            },
                        ],
                    )
                }
            }
        },
    }
}

/// Cancel as a pure transition: the order leaves its queue and is reported
/// canceled; no trades are produced.
pub open spec fn spec_cancel(b: BookModel, order_id: u64, account_id: u64) -> (
    BookModel,
    Seq<Outcome>,
) {
    match spec_locate(b, order_id) {
        None => (
            b,
            seq![Outcome::Rejected { order_id, reason: RejectReason::NotFound }],
        ),
        Some(side) => {
            let s = b.own_queue(side);
            let o = s[idx_of_id(s, order_id)];
            if o.account_id != account_id {
                (b, seq![Outcome::Rejected { order_id, reason: RejectReason::Forbidden }])
            } else {
                (
                    b.with_queue(side, s.remove(idx_of_id(s, order_id))),
                    seq![Outcome::StatusChanged { order_id, status: OrderStatus::Canceled }],
                )
            }
        },
    }
}

/// One canceled outcome per resting order, in queue order.
pub open spec fn spec_cancel_each(s: Seq<Order>) -> Seq<Outcome> {
    s.map_values(
        |o: Order| Outcome::StatusChanged { order_id: o.order_id, status: OrderStatus::Canceled },
    )
}

/// The matching loop never leaves the aggressor with more than it came with.
pub proof fn lemma_match_leaves_le(aggr: Order, opp: Seq<Order>, next_seq: u64)
    ensures
        spec_match(aggr, opp, next_seq).leaves <= aggr.leaves_qty,
    decreases opp.len(),
{
    if !(aggr.leaves_qty == 0 || opp.len() == 0 || !spec_marketable(aggr, opp[0])) {
        let exec = min_qty(aggr.leaves_qty, opp[0].leaves_qty);
        if exec >= opp[0].leaves_qty {
            lemma_match_leaves_le(
                Order { leaves_qty: (aggr.leaves_qty - exec) as u64, ..aggr },
                opp.drop_first(),
                (next_seq + 1) as u64,
            );
        }
    }
}

/// A value a sequence holds is still held after a push.
pub proof fn lemma_contains_push(s: Seq<u64>, pushed: u64, x: u64)
    requires
        s.contains(x),
    ensures
        s.push(pushed).contains(x),
{
    let i = choose|i: int| 0 <= i < s.len() && s[i] == x;
    assert(s.push(pushed)[i] == x);
}

/// The order book of a single instrument.  All mutation goes through
/// [`OrderBook::submit_new`], [`OrderBook::amend`] and [`OrderBook::cancel`],
/// each of which realises the pure transition of the same name.
pub struct OrderBook {
    /// The instrument this book trades.
    pub instrument_id: u64,
    /// Resting bids, best (highest price, earliest arrival) first.
    pub bids: OrderQueue,
    /// Resting asks, best (lowest price, earliest arrival) first.
    pub asks: OrderQueue,
    /// Every order id ever admitted, for duplicate rejection.
    pub known_ids: Vec<u64>,
    /// The next arrival/event stamp.
    pub next_seq: u64,
}

impl View for OrderBook {
    type V = BookModel;

    open spec fn view(&self) -> BookModel {
        BookModel {
            instrument_id: self.instrument_id,
            bids: self.bids@,
            asks: self.asks@,
            known: self.known_ids@,
            next_seq: self.next_seq,
        }
    }
}

impl OrderBook {
    /// The queues carry the right side and instrument and their own
    /// invariants hold.
    pub open spec fn queues_wf(self) -> bool {
        &&& self.bids.wf()
        &&& self.asks.wf()
        &&& self.bids.side == Side::Bid
        &&& self.asks.side == Side::Ask
        &&& self.bids.instrument_id == self.instrument_id
        &&& self.asks.instrument_id == self.instrument_id
    }

    /// The whole book invariant.
    pub open spec fn wf(self) -> bool {
        self.queues_wf() && self@.wf()
    }

    /// An empty book for one instrument, with arrival stamps starting at 1.
    pub fn new(instrument_id: u64) -> (b: OrderBook)
        ensures
            b.wf(),
            b.instrument_id == instrument_id,
            b@.bids =~= Seq::<Order>::empty(),
            b@.asks =~= Seq::<Order>::empty(),
            b@.known =~= Seq::<u64>::empty(),
            b@.next_seq == 1,
    {
        OrderBook {
            instrument_id,
            bids: OrderQueue::new(Side::Bid, instrument_id),
            asks: OrderQueue::new(Side::Ask, instrument_id),
            known_ids: Vec::new(),
            next_seq: 1,
        }
    }

    /// Whether this book has ever admitted `order_id`.
    fn knows(&self, order_id: u64) -> (r: bool)
        ensures
            r == self@.known.contains(order_id),
    {
        let n = self.known_ids.len();
        let mut i: usize = 0;
        while i < n
            invariant
                n == self.known_ids@.len(),
                i <= n,
                forall|j: int| 0 <= j < i ==> self.known_ids@[j] != order_id,
            decreases n - i,
        {
            if self.known_ids[i] == order_id {
                return true;
            }
            i += 1;
        }
        false
    }

    /// Whether `aggr` may cross with `resting`.
    fn marketable(aggr: &Order, resting: &Order) -> (r: bool)
        ensures
            r == spec_marketable(*aggr, *resting),
    {
        match aggr.order_type {
            OrderType::Market => true,
            OrderType::Limit => match aggr.side {
                Side::Bid => resting.limit_price <= aggr.limit_price,
                Side::Ask => resting.limit_price >= aggr.limit_price,
            },
        }
    }

    /// When the admission left the order's own queue untouched, that queue's
    /// entries keep their stamp bounds and stay inside the duplicate window.
    proof fn lemma_untouched_own_side(b0: BookModel, b1: BookModel, req: NewOrderReq)
        requires
            b0.wf(),
            b1.own_queue(req.side) == b0.own_queue(req.side),
            b1.known == b0.known.push(req.order_id),
            b0.next_seq < b1.next_seq,
        ensures
            forall|i: int|
                0 <= i < b1.own_queue(req.side).len() ==> (#[trigger] b1.own_queue(
                    req.side,
                )[i]).sequence < b1.next_seq,
            forall|i: int|
                0 <= i < b1.own_queue(req.side).len() ==> b1.known.contains(
                    (#[trigger] b1.own_queue(req.side)[i]).order_id,
                ),
    {
        assert forall|i: int| 0 <= i < b1.own_queue(req.side).len() implies ((#[trigger] b1.own_queue(
            req.side,
        )[i]).sequence < b1.next_seq && b1.known.contains(b1.own_queue(req.side)[i].order_id)) by {
            assert(b1.own_queue(req.side)[i] == b0.own_queue(req.side)[i]);
            lemma_contains_push(b0.known, req.order_id, b0.own_queue(req.side)[i].order_id);
        }
    }

    /// Processes one new order: validates it, rejects duplicates, runs the
    /// matching loop against the opposite queue, rests a limit remainder and
    /// cancels a market remainder.  Returns the ordered outcome list, fills
    /// first, ending with the final state of the incoming order.
    #[verifier::loop_isolation(false)]
    pub fn submit_new(&mut self, req: NewOrderReq) -> (r: Vec<Outcome>)
        requires
            old(self).wf(),
            old(self)@.next_seq + old(self)@.opposite_queue(req.side).len() + 1 <= u64::MAX,
        ensures
            final(self).wf(),
            final(self)@ == spec_submit(old(self)@, req).0,
            r@ == spec_submit(old(self)@, req).1,
    {
        let ghost b0 = old(self)@;
        let mut outcomes: Vec<Outcome> = Vec::new();
        if req.qty == 0 || req.qty > MAX_ORDER_QTY {
            outcomes.push(
                Outcome::Rejected { order_id: req.order_id, reason: RejectReason::InvalidQuantity },
            );
            assert(outcomes@ =~= spec_submit(b0, req).1);
            return outcomes;
        }
        if self.knows(req.order_id) {
            outcomes.push(
                Outcome::Rejected {
                    order_id: req.order_id,
                    reason: RejectReason::DuplicateOrderId,
                },
            );
            assert(outcomes@ =~= spec_submit(b0, req).1);
            return outcomes;
        }
        // admission: stamp the order and widen the duplicate window
        let aggr = Order {
            order_id: req.order_id,
            account_id: req.account_id,
            instrument_id: self.instrument_id,
            side: req.side,
            order_type: req.order_type,
            limit_price: if matches!(req.order_type, OrderType::Market) {
                0
            } else {
                req.limit_price
            },
            initial_qty: req.qty,
            leaves_qty: req.qty,
            status: OrderStatus::Accepted,
            sequence: self.next_seq,
        };
        assert(aggr == spec_admitted(b0, req));
        self.next_seq = self.next_seq + 1;
        self.known_ids.push(req.order_id);
        let ghost aggr0 = aggr;
        let ghost m0 = spec_match(aggr0, b0.opposite_queue(req.side), (b0.next_seq + 1) as u64);
        let mut cur = aggr;
        proof {
            assert forall|x: u64| b0.known.contains(x) implies self@.known.contains(x) by {
                lemma_contains_push(b0.known, req.order_id, x);
            }
        }
        let mut done = false;
        while !done
            invariant
                self.instrument_id == b0.instrument_id,
                self.bids.side == Side::Bid,
                self.asks.side == Side::Ask,
                self.bids.instrument_id == self.instrument_id,
                self.asks.instrument_id == self.instrument_id,
                self.bids.wf(),
                self.asks.wf(),
                self.known_ids@ == b0.known.push(req.order_id),
                self@.own_queue(req.side) == b0.own_queue(req.side),
                cur == (Order { leaves_qty: cur.leaves_qty, ..aggr0 }),
                spec_match(cur, self@.opposite_queue(req.side), self.next_seq).opp == m0.opp,
                spec_match(cur, self@.opposite_queue(req.side), self.next_seq).leaves == m0.leaves,
                spec_match(cur, self@.opposite_queue(req.side), self.next_seq).next_seq
                    == m0.next_seq,
                m0.outcomes == outcomes@ + spec_match(
                    cur,
                    self@.opposite_queue(req.side),
                    self.next_seq,
                ).outcomes,
                !done ==> self.next_seq + self@.opposite_queue(req.side).len() <= u64::MAX,
                b0.next_seq < self.next_seq,
                forall|i: int|
                    0 <= i < self@.opposite_queue(req.side).len() ==> (#[trigger] self@.opposite_queue(
                        req.side,
                    )[i]).sequence < b0.next_seq,
                forall|i: int|
                    0 <= i < self@.opposite_queue(req.side).len() ==> self.known_ids@.contains(
                        (#[trigger] self@.opposite_queue(req.side)[i]).order_id,
                    ),
                done ==> outcomes@ == m0.outcomes,
                done ==> self@.opposite_queue(req.side) == m0.opp,
                done ==> cur.leaves_qty == m0.leaves,
                done ==> self.next_seq == m0.next_seq,
            decreases self@.opposite_queue(req.side).len(), (if done { 0int } else { 1int }),
        {
            let ghost opp_in = self@.opposite_queue(req.side);
            let ghost ctr_in = self.next_seq;
            let ghost cur_in = cur;
            let ghost out_in = outcomes@;
            let top_opt = match req.side {
                Side::Bid => self.asks.peek_best(),
                Side::Ask => self.bids.peek_best(),
            };
            let mut crossed = false;
            if let Some(top) = top_opt {
                if cur.leaves_qty > 0 && Self::marketable(&cur, &top) {
                    crossed = true;
                    let exec = if cur.leaves_qty <= top.leaves_qty {
                        cur.leaves_qty
                    } else {
                        top.leaves_qty
                    };
                    let trade = Trade {
                        trade_id: self.next_seq,
                        aggressor_order_id: cur.order_id,
                        resting_order_id: top.order_id,
                        instrument_id: top.instrument_id,
                        price: top.limit_price,
                        exec_qty: exec,
                        sequence: self.next_seq,
                    };
                    outcomes.push(Outcome::Traded { trade });
                    self.next_seq = self.next_seq + 1;
                    if exec < top.leaves_qty {
                        // the aggressor is exhausted; reduce the top in place and stop
                        match req.side {
                            Side::Bid => self.asks.fill_best(exec),
                            Side::Ask => self.bids.fill_best(exec),
                        }
                        outcomes.push(
                            Outcome::StatusChanged {
                                order_id: top.order_id,
                                status: OrderStatus::PartiallyFilled,
                            },
                        );
                        cur.leaves_qty = 0;
                        done = true;
                        proof {
                            let st_in = spec_match(cur_in, opp_in, ctr_in);
                            assert(st_in.outcomes =~= seq![
                                Outcome::Traded { trade },
                                Outcome::StatusChanged {
                                    order_id: top.order_id,
                                    status: OrderStatus::PartiallyFilled,
                                },
                            ]);
                            assert(outcomes@ =~= out_in + st_in.outcomes);
                            assert(self@.opposite_queue(req.side) =~= st_in.opp);
                            let st_now = spec_match(
                                cur,
                                self@.opposite_queue(req.side),
                                self.next_seq,
                            );
                            assert(st_now.outcomes =~= Seq::<Outcome>::empty());
                            assert(m0.outcomes =~= outcomes@);
                        }
                    } else {
                        // the resting order is filled and leaves the book
                        match req.side {
                            Side::Bid => {
                                self.asks.pop_best();
                            },
                            Side::Ask => {
                                self.bids.pop_best();
                            },
                        }
                        outcomes.push(
                            Outcome::StatusChanged {
                                order_id: top.order_id,
                                status: OrderStatus::Filled,
                            },
                        );
                        cur.leaves_qty = cur.leaves_qty - exec;
                        proof {
                            let two = seq![
                                Outcome::Traded { trade },
                                Outcome::StatusChanged {
                                    order_id: top.order_id,
                                    status: OrderStatus::Filled,
                                },
                            ];
                            assert(cur == (Order {
                                leaves_qty: (cur_in.leaves_qty - exec) as u64,
                                ..cur_in
                            }));
                            assert(self@.opposite_queue(req.side) == opp_in.drop_first());
                            let st_in = spec_match(cur_in, opp_in, ctr_in);
                            let rest = spec_match(
                                cur,
                                self@.opposite_queue(req.side),
                                self.next_seq,
                            );
                            assert(st_in.outcomes =~= two + rest.outcomes);
                            assert(outcomes@ =~= out_in + two);
                            assert(m0.outcomes =~= outcomes@ + rest.outcomes);
                        }
                    }
                }
            }
            if !crossed {
                // no counter-order to cross with: the loop is finished
                done = true;
                proof {
                    assert(outcomes@ + spec_match(cur, opp_in, ctr_in).outcomes =~= outcomes@);
                }
            }
        }
        // the loop is done: decide the fate of the remainder
        if cur.leaves_qty == 0 {
            outcomes.push(
                Outcome::Accepted {
                    order_id: req.order_id,
                    leaves_qty: 0,
                    status: OrderStatus::Filled,
                },
            );
            proof {
                Self::lemma_untouched_own_side(b0, self@, req);
            }
        } else if matches!(req.order_type, OrderType::Limit) {
            let status = if cur.leaves_qty < req.qty {
                OrderStatus::PartiallyFilled
            } else {
                OrderStatus::Accepted
            };
            let rested = Order { leaves_qty: cur.leaves_qty, status, ..aggr };
            proof {
                lemma_match_leaves_le(aggr0, b0.opposite_queue(req.side), (b0.next_seq + 1) as u64);
                if has_order_id(b0.own_queue(req.side), req.order_id) {
                    let w = idx_of_id(b0.own_queue(req.side), req.order_id);
                    crate::queue::lemma_idx_of_id(b0.own_queue(req.side), req.order_id);
                    assert(b0.known.contains(b0.own_queue(req.side)[w].order_id));
                }
            }
            let inserted = match req.side {
                Side::Bid => self.bids.insert(rested),
                Side::Ask => self.asks.insert(rested),
            };
            proof {
                assert(inserted is Ok);
                let s_old = b0.own_queue(req.side);
                let pos = insert_pos(req.side, s_old, rested);
                let s_new = self@.own_queue(req.side);
                crate::queue::lemma_insert_pos_bounds(req.side, s_old, rested);
                assert(s_new == s_old.insert(pos, rested));
                assert forall|i: int| 0 <= i < s_new.len() implies ((#[trigger] s_new[i]).sequence
                    < self.next_seq && self.known_ids@.contains(s_new[i].order_id)) by {
                    if i < pos {
                        assert(s_new[i] == s_old[i]);
                        lemma_contains_push(b0.known, req.order_id, s_old[i].order_id);
                    } else if i == pos {
                        assert(s_new[i] == rested);
                        assert(self.known_ids@[self.known_ids@.len() - 1] == req.order_id);
                    } else {
                        assert(s_new[i] == s_old[i - 1]);
                        lemma_contains_push(b0.known, req.order_id, s_old[i - 1].order_id);
                    }
                }
            }
            outcomes.push(
                Outcome::Accepted { order_id: req.order_id, leaves_qty: rested.leaves_qty, status },
            );
        } else {
            outcomes.push(
                Outcome::Accepted {
                    order_id: req.order_id,
                    leaves_qty: cur.leaves_qty,
                    status: OrderStatus::Canceled,
                },
            );
            proof {
                Self::lemma_untouched_own_side(b0, self@, req);
            }
        }
        proof {
            assert forall|x: u64| b0.known.contains(x) implies self@.known.contains(x) by {
                lemma_contains_push(b0.known, req.order_id, x);
            }
            assert(self@.known =~= b0.known.push(req.order_id));
            assert(self@.known[self@.known.len() - 1] == req.order_id);
            assert(self@ =~= spec_submit(b0, req).0);
            assert(outcomes@ =~= spec_submit(b0, req).1);
            assert(self@.side_wf(Side::Bid));
            assert(self@.side_wf(Side::Ask));
            assert(self.queues_wf());
        }
        outcomes
    }

    /// Amends a resting order.  Only its owner may amend it; a price change
    /// or a quantity increase forfeits the order's queue position, a pure
    /// decrease keeps it.  Amend never triggers matching.
    #[verifier::rlimit(60)]
    pub fn amend(
        &mut self,
        order_id: u64,
        account_id: u64,
        new_price: Option<u64>,
        new_qty: Option<u64>,
    ) -> (r: Vec<Outcome>)
        requires
            old(self).wf(),
            old(self)@.next_seq < u64::MAX,
        ensures
            final(self).wf(),
            final(self)@ == spec_amend(old(self)@, order_id, account_id, new_price, new_qty).0,
            r@ == spec_amend(old(self)@, order_id, account_id, new_price, new_qty).1,
    {
        let ghost b0 = old(self)@;
        let mut outcomes: Vec<Outcome> = Vec::new();
        let located = match self.bids.find(order_id) {
            Some(o) => Some((Side::Bid, o)),
            None => match self.asks.find(order_id) {
                Some(o) => Some((Side::Ask, o)),
                None => None,
            },
        };
        let (side, o) = match located {
            Some(pair) => pair,
            None => {
                outcomes.push(Outcome::Rejected { order_id, reason: RejectReason::NotFound });
                assert(outcomes@ =~= spec_amend(b0, order_id, account_id, new_price, new_qty).1);
                return outcomes;
            },
        };
        proof {
            assert(spec_locate(b0, order_id) == Some(side));
            crate::queue::lemma_idx_of_id(b0.own_queue(side), order_id);
            assert(o == b0.own_queue(side)[idx_of_id(b0.own_queue(side), order_id)]);
        }
        if o.account_id != account_id {
            outcomes.push(Outcome::Rejected { order_id, reason: RejectReason::Forbidden });
            assert(outcomes@ =~= spec_amend(b0, order_id, account_id, new_price, new_qty).1);
            return outcomes;
        }
        let price2 = match new_price {
            Some(p) => p,
            None => o.limit_price,
        };
        let qty2 = match new_qty {
            Some(q) => q,
            None => o.leaves_qty,
        };
        if qty2 == 0 || qty2 > MAX_ORDER_QTY {
            outcomes.push(Outcome::Rejected { order_id, reason: RejectReason::InvalidQuantity });
            assert(outcomes@ =~= spec_amend(b0, order_id, account_id, new_price, new_qty).1);
            return outcomes;
        }
        if price2 != o.limit_price || qty2 > o.leaves_qty {
            // reposition: out of the queue and back in under a fresh stamp
            let removed = match side {
                Side::Bid => self.bids.remove(order_id),
                Side::Ask => self.asks.remove(order_id),
            };
            let o2 = Order {
                limit_price: price2,
                leaves_qty: qty2,
                initial_qty: if qty2 > o.initial_qty {
                    qty2
                } else {
                    o.initial_qty
                },
                sequence: self.next_seq,
                ..o
            };
            proof {
                let s = b0.own_queue(side);
                let i = idx_of_id(s, order_id);
                let s1 = s.remove(i);
                assert(self@.own_queue(side) == s1);
                assert forall|k: int| 0 <= k < s1.len() implies ((#[trigger] s1[k]).order_id
                    != order_id && s1[k].sequence != o2.sequence) by {
                    assert(s1[k] == if k < i { s[k] } else { s[k + 1] });
                }
                assert(!has_order_id(s1, order_id));
            }
            let ins = match side {
                Side::Bid => self.bids.insert(o2),
                Side::Ask => self.asks.insert(o2),
            };
            self.next_seq = self.next_seq + 1;
            outcomes.push(Outcome::Accepted { order_id, leaves_qty: qty2, status: o.status });
            proof {
                assert(ins is Ok);
                let s = b0.own_queue(side);
                let i = idx_of_id(s, order_id);
                let s1 = s.remove(i);
                let pos = insert_pos(side, s1, o2);
                let s2 = s1.insert(pos, o2);
                crate::queue::lemma_insert_pos_bounds(side, s1, o2);
                assert(self@.own_queue(side) == s2);
                assert forall|k: int| 0 <= k < s2.len() implies ((#[trigger] s2[k]).sequence
                    < self@.next_seq && self@.known.contains(s2[k].order_id)) by {
                    if k < pos {
                        assert(s2[k] == s1[k]);
                        assert(s1[k] == if k < i { s[k] } else { s[k + 1] });
                    } else if k == pos {
                        assert(s2[k] == o2);
                        assert(b0.known.contains(o.order_id));
                    } else {
                        assert(s2[k] == s1[k - 1]);
                        assert(s1[k - 1] == if k - 1 < i { s[k - 1] } else { s[k] });
                    }
                }
                Self::lemma_other_side_keeps(b0, self@, side);
                assert(self@ =~= spec_amend(b0, order_id, account_id, new_price, new_qty).0);
                assert(outcomes@ =~= spec_amend(b0, order_id, account_id, new_price, new_qty).1);
            }
            outcomes
        } else if qty2 < o.leaves_qty {
            // a pure decrease is applied in place and keeps priority
            let red = match side {
                Side::Bid => self.bids.reduce(order_id, o.leaves_qty - qty2),
                Side::Ask => self.asks.reduce(order_id, o.leaves_qty - qty2),
            };
            outcomes.push(Outcome::Accepted { order_id, leaves_qty: qty2, status: o.status });
            proof {
                assert(red is Ok);
                let s = b0.own_queue(side);
                let i = idx_of_id(s, order_id);
                let s2 = s.update(i, Order { leaves_qty: qty2, ..o });
                assert(self@.own_queue(side) =~= s2);
                assert forall|k: int| 0 <= k < s2.len() implies ((#[trigger] s2[k]).sequence
                    < self@.next_seq && self@.known.contains(s2[k].order_id)) by {
                    if k != i {
                        assert(s2[k] == s[k]);
                    } else {
                        assert(b0.known.contains(o.order_id));
                    }
                }
                Self::lemma_other_side_keeps(b0, self@, side);
                assert(self@ =~= spec_amend(b0, order_id, account_id, new_price, new_qty).0);
                assert(outcomes@ =~= spec_amend(b0, order_id, account_id, new_price, new_qty).1);
            }
            outcomes
        } else {
            // same price, same quantity: nothing to change
            outcomes.push(
                Outcome::Accepted { order_id, leaves_qty: o.leaves_qty, status: o.status },
            );
            proof {
                assert(self@ =~= spec_amend(b0, order_id, account_id, new_price, new_qty).0);
                assert(outcomes@ =~= spec_amend(b0, order_id, account_id, new_price, new_qty).1);
            }
            outcomes
        }
    }

    /// Cancels a resting order.  Only its owner may cancel it; no trades are
    /// produced.
    pub fn cancel(&mut self, order_id: u64, account_id: u64) -> (r: Vec<Outcome>)
        requires
            old(self).wf(),
        ensures
            final(self).wf(),
            final(self)@ == spec_cancel(old(self)@, order_id, account_id).0,
            r@ == spec_cancel(old(self)@, order_id, account_id).1,
    {
        let ghost b0 = old(self)@;
        let mut outcomes: Vec<Outcome> = Vec::new();
        let located = match self.bids.find(order_id) {
            Some(o) => Some((Side::Bid, o)),
            None => match self.asks.find(order_id) {
                Some(o) => Some((Side::Ask, o)),
                None => None,
            },
        };
        let (side, o) = match located {
            Some(pair) => pair,
            None => {
                outcomes.push(Outcome::Rejected { order_id, reason: RejectReason::NotFound });
                assert(outcomes@ =~= spec_cancel(b0, order_id, account_id).1);
                return outcomes;
            },
        };
        proof {
            assert(spec_locate(b0, order_id) == Some(side));
            crate::queue::lemma_idx_of_id(b0.own_queue(side), order_id);
            assert(o == b0.own_queue(side)[idx_of_id(b0.own_queue(side), order_id)]);
        }
        if o.account_id != account_id {
            outcomes.push(Outcome::Rejected { order_id, reason: RejectReason::Forbidden });
            assert(outcomes@ =~= spec_cancel(b0, order_id, account_id).1);
            return outcomes;
        }
        let removed = match side {
            Side::Bid => self.bids.remove(order_id),
            Side::Ask => self.asks.remove(order_id),
        };
        outcomes.push(Outcome::StatusChanged { order_id, status: OrderStatus::Canceled });
        proof {
            assert(removed is Ok);
            let s = b0.own_queue(side);
            let i = idx_of_id(s, order_id);
            let s2 = s.remove(i);
            assert(self@.own_queue(side) == s2);
            assert forall|k: int| 0 <= k < s2.len() implies ((#[trigger] s2[k]).sequence
                < self@.next_seq && self@.known.contains(s2[k].order_id)) by {
                assert(s2[k] == if k < i { s[k] } else { s[k + 1] });
            }
            Self::lemma_other_side_keeps(b0, self@, side);
            assert(self@ =~= spec_cancel(b0, order_id, account_id).0);
            assert(outcomes@ =~= spec_cancel(b0, order_id, account_id).1);
        }
        outcomes
    }

    /// The resting order that carries `order_id`, if it rests in this book.
    pub fn find_resting(&self, order_id: u64) -> (r: Option<Order>)
        ensures
            r == spec_find(self@, order_id),
    {
        match self.bids.find(order_id) {
            Some(o) => Some(o),
            None => self.asks.find(order_id),
        }
    }

    /// The top of the book as a pair: best bid price and best ask price,
    /// present only when both sides hold liquidity.
    pub fn current_spread(&self) -> (r: Option<(u64, u64)>)
        ensures
            r == if self@.bids.len() > 0 && self@.asks.len() > 0 {
                Some((self@.bids[0].limit_price, self@.asks[0].limit_price))
            } else {
                None::<(u64, u64)>
            },
    {
        match (self.bids.best_price(), self.asks.best_price()) {
            (Some(bid), Some(ask)) => Some((bid, ask)),
            _ => None,
        }
    }

    /// Empties the book when its instrument is retired: every resting order
    /// is canceled, bids first, each reported in queue order.  Nothing else
    /// of the book's state changes, so no orphaned liquidity survives and no
    /// retired id can ever be reused.
    #[verifier::loop_isolation(false)]
    pub fn drain(&mut self) -> (r: Vec<Outcome>)
        requires
            old(self).wf(),
        ensures
            final(self).wf(),
            final(self)@ == (BookModel {
                bids: Seq::<Order>::empty(),
                asks: Seq::<Order>::empty(),
                ..old(self)@
            }),
            r@ == spec_cancel_each(old(self)@.bids) + spec_cancel_each(old(self)@.asks),
    {
        let ghost b0 = old(self)@;
        let mut outcomes: Vec<Outcome> = Vec::new();
        while self.bids.len() > 0
            invariant
                self.bids.wf(),
                self.asks == old(self).asks,
                self.known_ids@ == b0.known,
                self.next_seq == b0.next_seq,
                self.instrument_id == b0.instrument_id,
                self.bids.side == Side::Bid,
                self.bids.instrument_id == self.instrument_id,
                outcomes@.len() <= b0.bids.len(),
                self.bids@ == b0.bids.skip(outcomes@.len() as int),
                forall|j: int|
                    0 <= j < outcomes@.len() ==> outcomes@[j] == (Outcome::StatusChanged {
                        order_id: b0.bids[j].order_id,
                        status: OrderStatus::Canceled,
                    }),
            decreases self.bids@.len(),
        {
            let ghost k = outcomes@.len() as int;
            let popped = self.bids.pop_best();
            match popped {
                Some(o) => {
                    outcomes.push(
                        Outcome::StatusChanged {
                            order_id: o.order_id,
                            status: OrderStatus::Canceled,
                        },
                    );
                },
                None => {
                    proof {
                        assert(false);
                    }
                },
            }
            proof {
                assert(b0.bids.skip(k).drop_first() =~= b0.bids.skip(k + 1));
                assert(b0.bids.skip(k)[0] == b0.bids[k]);
            }
        }
        let ghost n_bids = b0.bids.len() as int;
        assert(outcomes@.len() == n_bids);
        while self.asks.len() > 0
            invariant
                self.asks.wf(),
                self.bids@ =~= Seq::<Order>::empty(),
                self.bids.wf(),
                self.bids.side == Side::Bid,
                self.bids.instrument_id == self.instrument_id,
                self.known_ids@ == b0.known,
                self.next_seq == b0.next_seq,
                self.instrument_id == b0.instrument_id,
                self.asks.side == Side::Ask,
                self.asks.instrument_id == self.instrument_id,
                n_bids <= outcomes@.len() <= n_bids + b0.asks.len(),
                self.asks@ == b0.asks.skip(outcomes@.len() - n_bids),
                forall|j: int|
                    0 <= j < n_bids ==> outcomes@[j] == (Outcome::StatusChanged {
                        order_id: b0.bids[j].order_id,
                        status: OrderStatus::Canceled,
                    }),
                forall|j: int|
                    n_bids <= j < outcomes@.len() ==> outcomes@[j] == (Outcome::StatusChanged {
                        order_id: b0.asks[j - n_bids].order_id,
                        status: OrderStatus::Canceled,
                    }),
            decreases self.asks@.len(),
        {
            let ghost k = outcomes@.len() - n_bids;
            let popped = self.asks.pop_best();
            match popped {
                Some(o) => {
                    outcomes.push(
                        Outcome::StatusChanged {
                            order_id: o.order_id,
                            status: OrderStatus::Canceled,
                        },
                    );
                },
                None => {
                    proof {
                        assert(false);
                    }
                },
            }
            proof {
                assert(b0.asks.skip(k).drop_first() =~= b0.asks.skip(k + 1));
                assert(b0.asks.skip(k)[0] == b0.asks[k]);
            }
        }
        proof {
            assert(outcomes@ =~= spec_cancel_each(b0.bids) + spec_cancel_each(b0.asks));
            assert(self@ =~= (BookModel {
                bids: Seq::<Order>::empty(),
                asks: Seq::<Order>::empty(),
                ..b0
            }));
        }
        outcomes
    }

    /// Entries of the side not touched by an amend or cancel keep their
    /// stamp bounds and stay inside the duplicate window.
    proof fn lemma_other_side_keeps(b0: BookModel, b1: BookModel, touched: Side)
        requires
            b0.wf(),
            b1.own_queue(touched.spec_opposite()) == b0.own_queue(touched.spec_opposite()),
            b1.known == b0.known,
            b0.next_seq <= b1.next_seq,
        ensures
            forall|i: int|
                0 <= i < b1.own_queue(touched.spec_opposite()).len() ==> (
                #[trigger] b1.own_queue(touched.spec_opposite())[i]).sequence < b1.next_seq,
            forall|i: int|
                0 <= i < b1.own_queue(touched.spec_opposite()).len() ==> b1.known.contains(
                    (#[trigger] b1.own_queue(touched.spec_opposite())[i]).order_id,
                ),
    {
        let other = touched.spec_opposite();
        assert forall|i: int| 0 <= i < b1.own_queue(other).len() implies ((#[trigger] b1.own_queue(
            other,
        )[i]).sequence < b1.next_seq && b1.known.contains(b1.own_queue(other)[i].order_id)) by {
            assert(b1.own_queue(other)[i] == b0.own_queue(other)[i]);
        }
    }
}

} // verus!
