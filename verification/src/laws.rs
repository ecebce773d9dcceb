//! The engine's guarantees, stated and proved once and for all over the pure
//! transitions of [`crate::book`]: price priority, time priority,
//! conservation of quantity, absence of phantom liquidity, and idempotent
//! duplicate rejection.

use vstd::prelude::*;

use crate::book::min_qty;
use crate::book::spec_match;
use crate::book::spec_submit;
use crate::book::BookModel;
use crate::book::NewOrderReq;
use crate::queue::queue_sorted;
use crate::types::MAX_ORDER_QTY;
use crate::types::Order;
use crate::types::OrderType;
use crate::types::Outcome;
use crate::types::RejectReason;
use crate::types::Side;
use crate::types::Trade;

verus! {

/// The trades among an outcome list, in emission order.
pub open spec fn fills_of(out: Seq<Outcome>) -> Seq<Trade>
    decreases out.len(),
{
    if out.len() == 0 {
        Seq::empty()
    } else {
        match out[0] {
            Outcome::Traded { trade } => seq![trade] + fills_of(out.drop_first()),
            _ => fills_of(out.drop_first()),
        }
    }
}

/// The total quantity executed by the first `k` of the given fills.
pub open spec fn sum_exec(fills: Seq<Trade>, k: int) -> int
    decreases k,
{
    if k <= 0 {
        0
    } else {
        sum_exec(fills, k - 1) + fills[k - 1].exec_qty
    }
}

/// Peeling a leading trade and status change off an outcome list peels one
/// fill off its trades.
proof fn lemma_fills_of_step(t: Trade, s: Outcome, rest: Seq<Outcome>)
    requires
        !(s is Traded),
    ensures
        fills_of(seq![Outcome::Traded { trade: t }, s] + rest) =~= seq![t] + fills_of(rest),
{
    let whole = seq![Outcome::Traded { trade: t }, s] + rest;
    assert(whole.len() == 2 + rest.len());
    assert(whole[0] == Outcome::Traded { trade: t });
    assert(whole.drop_first() =~= seq![s] + rest);
    assert(fills_of(whole) == seq![t] + fills_of(seq![s] + rest));
    assert((seq![s] + rest)[0] == s);
    assert((seq![s] + rest).drop_first() =~= rest);
    assert(fills_of(seq![s] + rest) == fills_of(rest));
}

/// The running sum of a peeled fill list: one leading trade shifts every
/// prefix sum by its quantity.
proof fn lemma_sum_exec_cons(t: Trade, rest: Seq<Trade>, k: int)
    requires
        0 <= k <= rest.len(),
    ensures
        sum_exec(seq![t] + rest, k + 1) == t.exec_qty + sum_exec(rest, k),
    decreases k,
{
    let whole = seq![t] + rest;
    assert(sum_exec(whole, k + 1) == sum_exec(whole, k) + whole[k].exec_qty);
    if k > 0 {
        lemma_sum_exec_cons(t, rest, k - 1);
        assert(whole[k] == rest[k - 1]);
        assert(sum_exec(rest, k) == sum_exec(rest, k - 1) + rest[k - 1].exec_qty);
    } else {
        assert(sum_exec(whole, 0) == 0);
        assert(sum_exec(rest, 0) == 0);
        assert(whole[0] == t);
    }
}

/// The matching loop fills resting orders strictly in queue order: the
/// `k`-th fill is always against the `k`-th order of the opposite queue.
pub proof fn lemma_fills_follow_queue(aggr: Order, opp: Seq<Order>, next_seq: u64)
    ensures
        fills_of(spec_match(aggr, opp, next_seq).outcomes).len() <= opp.len(),
        forall|k: int|
            0 <= k < fills_of(spec_match(aggr, opp, next_seq).outcomes).len() ==> {
                let f = fills_of(spec_match(aggr, opp, next_seq).outcomes)[k];
                &&& f.resting_order_id == (#[trigger] opp[k]).order_id
                &&& f.price == opp[k].limit_price
                &&& f.aggressor_order_id == aggr.order_id
            },
    decreases opp.len(),
{
    let m = spec_match(aggr, opp, next_seq);
    if aggr.leaves_qty == 0 || opp.len() == 0 || !spec_marketable_at(aggr, opp) {
        assert(fills_of(m.outcomes) =~= Seq::<Trade>::empty());
    } else {
        let top = opp[0];
        let exec = min_qty(aggr.leaves_qty, top.leaves_qty);
        let trade = Trade {
            trade_id: next_seq,
            aggressor_order_id: aggr.order_id,
            resting_order_id: top.order_id,
            instrument_id: top.instrument_id,
            price: top.limit_price,
            exec_qty: exec,
            sequence: next_seq,
        };
        if exec < top.leaves_qty {
            lemma_fills_of_step(
                trade,
                Outcome::StatusChanged {
                    order_id: top.order_id,
                    status: crate::types::OrderStatus::PartiallyFilled,
                },
                Seq::empty(),
            );
            assert(m.outcomes =~= seq![
                Outcome::Traded { trade },
                Outcome::StatusChanged {
                    order_id: top.order_id,
                    status: crate::types::OrderStatus::PartiallyFilled,
                },
            ] + Seq::<Outcome>::empty());
            assert(fills_of(m.outcomes) =~= seq![trade] + fills_of(Seq::empty()));
            assert(fills_of(m.outcomes) =~= seq![trade]);
        } else {
            let aggr2 = Order { leaves_qty: (aggr.leaves_qty - exec) as u64, ..aggr };
            let rest = spec_match(aggr2, opp.drop_first(), (next_seq + 1) as u64);
            lemma_fills_follow_queue(aggr2, opp.drop_first(), (next_seq + 1) as u64);
            lemma_fills_of_step(
                trade,
                Outcome::StatusChanged {
                    order_id: top.order_id,
                    status: crate::types::OrderStatus::Filled,
                },
                rest.outcomes,
            );
            let fills = fills_of(m.outcomes);
            assert(fills =~= seq![trade] + fills_of(rest.outcomes));
            assert forall|k: int| 0 <= k < fills.len() implies {
                let f = fills[k];
                &&& f.resting_order_id == (#[trigger] opp[k]).order_id
                &&& f.price == opp[k].limit_price
                &&& f.aggressor_order_id == aggr.order_id
            } by {
                if k > 0 {
                    assert(fills[k] == fills_of(rest.outcomes)[k - 1]);
                    assert(opp.drop_first()[k - 1] == opp[k]);
                }
            }
        }
    }
}

/// Marketability of the queue head, written so the base case of the
/// matching loop reads as one condition.
spec fn spec_marketable_at(aggr: Order, opp: Seq<Order>) -> bool {
    crate::book::spec_marketable(aggr, opp[0])
}

/// Price priority: of two resting bids at different prices, the
/// higher-priced one stands strictly earlier in a well-formed bid queue,
/// and — because the matching loop fills the queue in order — it matches
/// first against any incoming ask that reaches both.  Insertion order never
/// enters: the queue invariant alone decides the positions.
pub proof fn law_price_priority(q: Seq<Order>, i: int, j: int, aggr: Order, next_seq: u64)
    requires
        queue_sorted(Side::Bid, q),
        0 <= i < q.len(),
        0 <= j < q.len(),
        q[i].limit_price > q[j].limit_price,
    ensures
        i < j,
        j < fills_of(spec_match(aggr, q, next_seq).outcomes).len() ==> {
            let fills = fills_of(spec_match(aggr, q, next_seq).outcomes);
            fills[i].resting_order_id == q[i].order_id && fills[j].resting_order_id
                == q[j].order_id
        },
{
    lemma_fills_follow_queue(aggr, q, next_seq);
}

/// Time priority: of two resting orders at the same price, the one with the
/// smaller arrival sequence stands strictly earlier in a well-formed queue
/// of its side, and so matches first.
pub proof fn law_time_priority(side: Side, q: Seq<Order>, i: int, j: int, aggr: Order, next_seq: u64)
    requires
        queue_sorted(side, q),
        0 <= i < q.len(),
        0 <= j < q.len(),
        q[i].limit_price == q[j].limit_price,
        q[i].sequence < q[j].sequence,
    ensures
        i < j,
        j < fills_of(spec_match(aggr, q, next_seq).outcomes).len() ==> {
            let fills = fills_of(spec_match(aggr, q, next_seq).outcomes);
            fills[i].resting_order_id == q[i].order_id && fills[j].resting_order_id
                == q[j].order_id
        },
{
    lemma_fills_follow_queue(aggr, q, next_seq);
}

/// Conservation: every fill executes exactly the smaller of the two sides'
/// remaining quantities at that moment — never more than either side has —
/// and the pair's combined remaining quantity falls by exactly twice the
/// executed quantity.  The aggressor's remainder after the whole loop is its
/// admission quantity less everything executed.
#[verifier::rlimit(80)]
pub proof fn law_conservation(aggr: Order, opp: Seq<Order>, next_seq: u64)
    ensures
        ({
            let m = spec_match(aggr, opp, next_seq);
            let fills = fills_of(m.outcomes);
            &&& fills.len() <= opp.len()
            &&& m.leaves == aggr.leaves_qty - sum_exec(fills, fills.len() as int)
            &&& forall|k: int|
                0 <= k < fills.len() ==> {
                    let exec = (#[trigger] fills[k]).exec_qty;
                    let aggr_before = aggr.leaves_qty - sum_exec(fills, k);
                    let resting_before = opp[k].leaves_qty;
                    &&& exec == min_qty(aggr_before as u64, resting_before)
                    &&& exec <= aggr_before
                    &&& exec <= resting_before
                    &&& (aggr_before - exec) + (resting_before - exec) == aggr_before
                        + resting_before - 2 * exec
                }
        }),
    decreases opp.len(),
{
    let m = spec_match(aggr, opp, next_seq);
    if aggr.leaves_qty == 0 || opp.len() == 0 || !spec_marketable_at(aggr, opp) {
        assert(fills_of(m.outcomes) =~= Seq::<Trade>::empty());
    } else {
        let top = opp[0];
        let exec = min_qty(aggr.leaves_qty, top.leaves_qty);
        let trade = Trade {
            trade_id: next_seq,
            aggressor_order_id: aggr.order_id,
            resting_order_id: top.order_id,
            instrument_id: top.instrument_id,
            price: top.limit_price,
            exec_qty: exec,
            sequence: next_seq,
        };
        if exec < top.leaves_qty {
            lemma_fills_of_step(
                trade,
                Outcome::StatusChanged {
                    order_id: top.order_id,
                    status: crate::types::OrderStatus::PartiallyFilled,
                },
                Seq::empty(),
            );
            assert(m.outcomes =~= seq![
                Outcome::Traded { trade },
                Outcome::StatusChanged {
                    order_id: top.order_id,
                    status: crate::types::OrderStatus::PartiallyFilled,
                },
            ] + Seq::<Outcome>::empty());
            let fills = fills_of(m.outcomes);
            assert(fills =~= seq![trade]);
            assert(sum_exec(fills, 0) == 0);
            assert(fills[0] == trade);
            assert(sum_exec(fills, 1) == exec);
        } else {
            let aggr2 = Order { leaves_qty: (aggr.leaves_qty - exec) as u64, ..aggr };
            let rest = spec_match(aggr2, opp.drop_first(), (next_seq + 1) as u64);
            law_conservation(aggr2, opp.drop_first(), (next_seq + 1) as u64);
            lemma_fills_of_step(
                trade,
                Outcome::StatusChanged {
                    order_id: top.order_id,
                    status: crate::types::OrderStatus::Filled,
                },
                rest.outcomes,
            );
            let fills = fills_of(m.outcomes);
            let fills_rest = fills_of(rest.outcomes);
            assert(fills =~= seq![trade] + fills_rest);
            assert forall|k: int| 0 <= k <= fills_rest.len() implies sum_exec(fills, k + 1)
                == trade.exec_qty + sum_exec(fills_rest, k) by {
                lemma_sum_exec_cons(trade, fills_rest, k);
            }
            assert(m.leaves == aggr.leaves_qty - sum_exec(fills, fills.len() as int));
            assert forall|k: int| 0 <= k < fills.len() implies {
                let exec_k = (#[trigger] fills[k]).exec_qty;
                let aggr_before = aggr.leaves_qty - sum_exec(fills, k);
                let resting_before = opp[k].leaves_qty;
                &&& exec_k == min_qty(aggr_before as u64, resting_before)
                &&& exec_k <= aggr_before
                &&& exec_k <= resting_before
                &&& (aggr_before - exec_k) + (resting_before - exec_k) == aggr_before
                    + resting_before - 2 * exec_k
            } by {
                if k > 0 {
                    assert(fills[k] == fills_rest[k - 1]);
                    assert(opp.drop_first()[k - 1] == opp[k]);
                    lemma_sum_exec_cons(trade, fills_rest, k - 1);
                }
            }
        }
    }
}

/// Price improvement is one-sided: a limit aggressor trades only at the
/// resting side's price, and never at a price worse than its own limit —
/// a bid never pays above it, an ask never sells below it.
pub proof fn lemma_aggressor_never_trades_worse(aggr: Order, opp: Seq<Order>, next_seq: u64)
    requires
        aggr.order_type == OrderType::Limit,
    ensures
        forall|k: int|
            0 <= k < fills_of(spec_match(aggr, opp, next_seq).outcomes).len() ==> {
                let f = #[trigger] fills_of(spec_match(aggr, opp, next_seq).outcomes)[k];
                &&& (aggr.side == Side::Bid ==> f.price <= aggr.limit_price)
                &&& (aggr.side == Side::Ask ==> f.price >= aggr.limit_price)
            },
    decreases opp.len(),
{
    let m = spec_match(aggr, opp, next_seq);
    if aggr.leaves_qty == 0 || opp.len() == 0 || !spec_marketable_at(aggr, opp) {
        assert(fills_of(m.outcomes) =~= Seq::<Trade>::empty());
    } else {
        let top = opp[0];
        let exec = min_qty(aggr.leaves_qty, top.leaves_qty);
        let trade = Trade {
            trade_id: next_seq,
            aggressor_order_id: aggr.order_id,
            resting_order_id: top.order_id,
            instrument_id: top.instrument_id,
            price: top.limit_price,
            exec_qty: exec,
            sequence: next_seq,
        };
        if exec < top.leaves_qty {
            lemma_fills_of_step(
                trade,
                Outcome::StatusChanged {
                    order_id: top.order_id,
                    status: crate::types::OrderStatus::PartiallyFilled,
                },
                Seq::empty(),
            );
            assert(m.outcomes =~= seq![
                Outcome::Traded { trade },
                Outcome::StatusChanged {
                    order_id: top.order_id,
                    status: crate::types::OrderStatus::PartiallyFilled,
                },
            ] + Seq::<Outcome>::empty());
            assert(fills_of(m.outcomes) =~= seq![trade]);
        } else {
            let aggr2 = Order { leaves_qty: (aggr.leaves_qty - exec) as u64, ..aggr };
            let rest = spec_match(aggr2, opp.drop_first(), (next_seq + 1) as u64);
            lemma_aggressor_never_trades_worse(aggr2, opp.drop_first(), (next_seq + 1) as u64);
            lemma_fills_of_step(
                trade,
                Outcome::StatusChanged {
                    order_id: top.order_id,
                    status: crate::types::OrderStatus::Filled,
                },
                rest.outcomes,
            );
            let fills = fills_of(m.outcomes);
            assert(fills =~= seq![trade] + fills_of(rest.outcomes));
            assert forall|k: int| 0 <= k < fills.len() implies {
                let f = #[trigger] fills[k];
                &&& (aggr.side == Side::Bid ==> f.price <= aggr.limit_price)
                &&& (aggr.side == Side::Ask ==> f.price >= aggr.limit_price)
            } by {
                if k > 0 {
                    assert(fills[k] == fills_of(rest.outcomes)[k - 1]);
                }
            }
        }
    }
}

/// No phantom liquidity: in a well-formed book every resting order, on
/// either side, has strictly positive remaining quantity; an order whose
/// quantity reaches zero is popped or removed, never left in a queue.
pub proof fn law_no_phantom_liquidity(b: BookModel)
    requires
        b.wf(),
    ensures
        forall|i: int| 0 <= i < b.bids.len() ==> (#[trigger] b.bids[i]).leaves_qty > 0,
        forall|i: int| 0 <= i < b.asks.len() ==> (#[trigger] b.asks[i]).leaves_qty > 0,
{
}

/// Idempotent duplicate rejection: a valid order id submitted twice is
/// admitted once — its outcome list holds exactly one admission report and
/// no rejection — while the second submission is rejected as a duplicate
/// and leaves the book exactly as the first submission left it.
pub proof fn law_duplicate_rejection(b: BookModel, req: NewOrderReq)
    requires
        0 < req.qty <= MAX_ORDER_QTY,
        !b.known.contains(req.order_id),
    ensures
        ({
            let (b1, out1) = spec_submit(b, req);
            let (b2, out2) = spec_submit(b1, req);
            &&& b2 == b1
            &&& out2 =~= seq![
                Outcome::Rejected {
                    order_id: req.order_id,
                    reason: RejectReason::DuplicateOrderId,
                },
            ]
            &&& out1.len() >= 1
            &&& out1[out1.len() - 1] is Accepted
            &&& forall|k: int| 0 <= k < out1.len() - 1 ==> !((#[trigger] out1[k]) is Accepted)
            &&& forall|k: int| 0 <= k < out1.len() ==> !((#[trigger] out1[k]) is Rejected)
        }),
{
    let (b1, out1) = spec_submit(b, req);
    assert(b1.known == b.known.push(req.order_id));
    assert(b1.known[b1.known.len() - 1] == req.order_id);
    assert(b1.known.contains(req.order_id));
    let aggr = crate::book::spec_admitted(b, req);
    let m = spec_match(aggr, b.opposite_queue(req.side), (b.next_seq + 1) as u64);
    lemma_match_outcome_kinds(aggr, b.opposite_queue(req.side), (b.next_seq + 1) as u64);
    assert(out1.len() == m.outcomes.len() + 1);
    assert(out1[out1.len() - 1] is Accepted);
    assert forall|k: int| 0 <= k < out1.len() - 1 implies !((#[trigger] out1[k]) is Accepted) by {
        assert(out1[k] == m.outcomes[k]);
    }
    assert forall|k: int| 0 <= k < out1.len() implies !((#[trigger] out1[k]) is Rejected) by {
        if k < out1.len() - 1 {
            assert(out1[k] == m.outcomes[k]);
        }
    }
}

/// Every outcome the matching loop itself emits is a fill or a resting
/// order's status change; admissions and rejections come only from the
/// submission wrapper around it.
pub proof fn lemma_match_outcome_kinds(aggr: Order, opp: Seq<Order>, next_seq: u64)
    ensures
        forall|k: int|
            0 <= k < spec_match(aggr, opp, next_seq).outcomes.len() ==> {
                let o = #[trigger] spec_match(aggr, opp, next_seq).outcomes[k];
                o is Traded || o is StatusChanged
            },
    decreases opp.len(),
{
    let m = spec_match(aggr, opp, next_seq);
    if !(aggr.leaves_qty == 0 || opp.len() == 0 || !spec_marketable_at(aggr, opp)) {
        let top = opp[0];
        let exec = min_qty(aggr.leaves_qty, top.leaves_qty);
        if exec >= top.leaves_qty {
            let aggr2 = Order { leaves_qty: (aggr.leaves_qty - exec) as u64, ..aggr };
            lemma_match_outcome_kinds(aggr2, opp.drop_first(), (next_seq + 1) as u64);
            let rest = spec_match(aggr2, opp.drop_first(), (next_seq + 1) as u64);
            assert forall|k: int| 0 <= k < m.outcomes.len() implies {
                let o = #[trigger] m.outcomes[k];
                o is Traded || o is StatusChanged
            } by {
                if k >= 2 {
                    assert(m.outcomes[k] == rest.outcomes[k - 2]);
                }
            }
        }
    }
}

} // verus!
