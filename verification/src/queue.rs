//! The price-time priority queue of resting orders for one side of one
//! instrument's book.
//!
//! A bid queue orders its entries by descending limit price, an ask queue by
//! ascending limit price; within one price level the entry with the smaller
//! arrival `sequence` stands first.  The queue is the sole owner of resting
//! order state: an order rests here only while it has unfilled quantity and a
//! non-terminal status, so the book can never match against phantom liquidity.

use vstd::prelude::*;

use crate::types::MAX_ORDER_QTY;
use crate::types::Order;
use crate::types::OrderStatus;
use crate::types::OrderType;
use crate::types::RejectReason;
use crate::types::Side;

verus! {

/// Whether `a` has strictly better price-time priority than `b` on `side`:
/// a strictly better price, or the same price and an earlier arrival.
pub open spec fn higher_priority(side: Side, a: Order, b: Order) -> bool {
    match side {
        Side::Bid => a.limit_price > b.limit_price || (a.limit_price == b.limit_price
            && a.sequence < b.sequence),
        Side::Ask => a.limit_price < b.limit_price || (a.limit_price == b.limit_price
            && a.sequence < b.sequence),
    }
}

/// Entries stand in strictly decreasing priority: the best order first.
pub open spec fn queue_sorted(side: Side, s: Seq<Order>) -> bool {
    forall|i: int, j: int|
        0 <= i < j < s.len() ==> higher_priority(side, #[trigger] s[i], #[trigger] s[j])
}

/// Every entry is a restable limit order of this side and instrument.
pub open spec fn entries_wf(side: Side, instrument_id: u64, s: Seq<Order>) -> bool {
    forall|i: int|
        0 <= i < s.len() ==> {
            &&& (#[trigger] s[i]).restable()
            &&& s[i].side == side
            &&& s[i].order_type == OrderType::Limit
            &&& s[i].instrument_id == instrument_id
        }
}

/// No two entries share an order id.
pub open spec fn unique_order_ids(s: Seq<Order>) -> bool {
    forall|i: int, j: int|
        0 <= i < j < s.len() ==> (#[trigger] s[i]).order_id != (#[trigger] s[j]).order_id
}

/// Whether some entry of `s` carries `order_id`.
pub open spec fn has_order_id(s: Seq<Order>, order_id: u64) -> bool {
    exists|i: int| 0 <= i < s.len() && (#[trigger] s[i]).order_id == order_id
}

/// The first index of `s` whose entry carries `order_id`.
pub open spec fn idx_of_id(s: Seq<Order>, order_id: u64) -> int
    decreases s.len(),
{
    if s.len() == 0 {
        0
    } else if s[0].order_id == order_id {
        0
    } else {
        1 + idx_of_id(s.drop_first(), order_id)
    }
}

/// The position at which an order of priority `o` belongs in the sorted
/// sequence `s`: before the first entry it outranks.
pub open spec fn insert_pos(side: Side, s: Seq<Order>, o: Order) -> int
    decreases s.len(),
{
    if s.len() == 0 {
        0
    } else if higher_priority(side, o, s[0]) {
        0
    } else {
        1 + insert_pos(side, s.drop_first(), o)
    }
}

/// `idx_of_id` points at the entry with the id, when one is present.
pub proof fn lemma_idx_of_id(s: Seq<Order>, order_id: u64)
    requires
        has_order_id(s, order_id),
    ensures
        0 <= idx_of_id(s, order_id) < s.len(),
        s[idx_of_id(s, order_id)].order_id == order_id,
    decreases s.len(),
{
    if s.len() > 0 && s[0].order_id != order_id {
        assert(has_order_id(s.drop_first(), order_id)) by {
            let w = choose|i: int| 0 <= i < s.len() && (#[trigger] s[i]).order_id == order_id;
            assert(s.drop_first()[w - 1].order_id == order_id);
        }
        lemma_idx_of_id(s.drop_first(), order_id);
        assert(s[idx_of_id(s, order_id)] == s.drop_first()[idx_of_id(s.drop_first(), order_id)]);
    }
}

/// `idx_of_id` returns exactly the first index whose entry carries the id.
pub proof fn lemma_idx_of_id_is(s: Seq<Order>, order_id: u64, i: int)
    requires
        0 <= i < s.len(),
        s[i].order_id == order_id,
        forall|j: int| 0 <= j < i ==> (#[trigger] s[j]).order_id != order_id,
    ensures
        idx_of_id(s, order_id) == i,
    decreases s.len(),
{
    if s[0].order_id != order_id {
        let t = s.drop_first();
        assert(t[i - 1].order_id == order_id);
        assert(forall|j: int| 0 <= j < i - 1 ==> (#[trigger] t[j]).order_id != order_id);
        lemma_idx_of_id_is(t, order_id, i - 1);
    }
}

/// `insert_pos` always lands inside the sequence, end included.
pub proof fn lemma_insert_pos_bounds(side: Side, s: Seq<Order>, o: Order)
    ensures
        0 <= insert_pos(side, s, o) <= s.len(),
    decreases s.len(),
{
    if s.len() > 0 && !higher_priority(side, o, s[0]) {
        lemma_insert_pos_bounds(side, s.drop_first(), o);
    }
}

/// `insert_pos` is exactly the index `i` that splits `s` into entries that
/// outrank `o` and entries that `o` outranks.
pub proof fn lemma_insert_pos_is(side: Side, s: Seq<Order>, o: Order, i: int)
    requires
        0 <= i <= s.len(),
        forall|j: int| 0 <= j < i ==> !higher_priority(side, o, #[trigger] s[j]),
        i < s.len() ==> higher_priority(side, o, s[i]),
    ensures
        insert_pos(side, s, o) == i,
    decreases s.len(),
{
    if s.len() > 0 && !higher_priority(side, o, s[0]) {
        let t = s.drop_first();
        assert(forall|j: int| 0 <= j < i - 1 ==> !higher_priority(side, o, #[trigger] t[j]));
        assert(i - 1 < t.len() ==> higher_priority(side, o, t[i - 1]));
        lemma_insert_pos_is(side, t, o, i - 1);
    }
}

/// One side's resting orders, best priority first.
pub struct OrderQueue {
    /// The side every entry belongs to.
    pub side: Side,
    /// The instrument every entry belongs to.
    pub instrument_id: u64,
    /// The resting orders, best priority first.  Only this module's methods
    /// keep the `wf` invariant; mutate through them alone.
    pub orders: Vec<Order>,
}

impl View for OrderQueue {
    type V = Seq<Order>;

    open spec fn view(&self) -> Seq<Order> {
        self.orders@
    }
}

impl OrderQueue {
    /// The queue invariant: sorted by priority, only restable limit orders of
    /// this side and instrument, no duplicate ids.
    pub open spec fn wf(self) -> bool {
        &&& queue_sorted(self.side, self@)
        &&& entries_wf(self.side, self.instrument_id, self@)
        &&& unique_order_ids(self@)
    }

    /// An empty queue for one side of one instrument.
    pub fn new(side: Side, instrument_id: u64) -> (q: OrderQueue)
        ensures
            q.wf(),
            q@ =~= Seq::<Order>::empty(),
            q.side == side,
            q.instrument_id == instrument_id,
    {
        OrderQueue { side, instrument_id, orders: Vec::new() }
    }

    /// How many orders rest here.
    pub fn len(&self) -> (n: usize)
        ensures
            n == self@.len(),
    {
        self.orders.len()
    }

    /// The best-priority resting order, left in place.
    pub fn peek_best(&self) -> (r: Option<Order>)
        ensures
            r == if self@.len() > 0 {
                Some(self@[0])
            } else {
                None::<Order>
            },
    {
        if self.orders.len() > 0 {
            Some(self.orders[0])
        } else {
            None
        }
    }

    /// The top-of-book price for this side.
    pub fn best_price(&self) -> (r: Option<u64>)
        ensures
            r == if self@.len() > 0 {
                Some(self@[0].limit_price)
            } else {
                None::<u64>
            },
    {
        if self.orders.len() > 0 {
            Some(self.orders[0].limit_price)
        } else {
            None
        }
    }

    /// Removes and returns the best-priority resting order.
    pub fn pop_best(&mut self) -> (r: Option<Order>)
        requires
            old(self).wf(),
        ensures
            final(self).wf(),
            final(self).side == old(self).side,
            final(self).instrument_id == old(self).instrument_id,
            old(self)@.len() == 0 ==> r == None::<Order> && final(self)@ == old(self)@,
            old(self)@.len() > 0 ==> r == Some(old(self)@[0]) && final(self)@ == old(
                self,
            )@.drop_first(),
    {
        if self.orders.len() > 0 {
            let o = self.orders.remove(0);
            assert(self@ =~= old(self)@.drop_first());
            Some(o)
        } else {
            None
        }
    }

    /// Whether `a` outranks `b` on `side`.
    fn beats(side: Side, a: &Order, b: &Order) -> (r: bool)
        ensures
            r == higher_priority(side, *a, *b),
    {
        match side {
            Side::Bid => a.limit_price > b.limit_price || (a.limit_price == b.limit_price
                && a.sequence < b.sequence),
            Side::Ask => a.limit_price < b.limit_price || (a.limit_price == b.limit_price
                && a.sequence < b.sequence),
        }
    }

    /// Inserts `o` at the position its price-time priority dictates, or
    /// rejects the insertion when its order id is already present.
    ///
    /// The arrival stamp of `o` must be fresh for this queue; the book
    /// guarantees that by handing out strictly increasing sequences.
    pub fn insert(&mut self, o: Order) -> (r: Result<(), RejectReason>)
        requires
            old(self).wf(),
            o.restable(),
            o.side == old(self).side,
            o.order_type == OrderType::Limit,
            o.instrument_id == old(self).instrument_id,
            forall|i: int|
                0 <= i < old(self)@.len() ==> (#[trigger] old(self)@[i]).sequence != o.sequence,
        ensures
            final(self).wf(),
            final(self).side == old(self).side,
            final(self).instrument_id == old(self).instrument_id,
            match r {
                Ok(()) => !has_order_id(old(self)@, o.order_id) && final(self)@ == old(
                    self,
                )@.insert(insert_pos(old(self).side, old(self)@, o), o),
                Err(reason) => {
                    &&& reason == RejectReason::DuplicateOrderId
                    &&& has_order_id(old(self)@, o.order_id)
                    &&& final(self)@ == old(self)@
                },
            },
    {
        let n = self.orders.len();
        let mut i: usize = 0;
        while i < n
            invariant
                self == old(self),
                old(self).wf(),
                n == self@.len(),
                i <= n,
                forall|j: int| 0 <= j < i ==> (#[trigger] self@[j]).order_id != o.order_id,
            decreases n - i,
        {
            if self.orders[i].order_id == o.order_id {
                assert(has_order_id(self@, o.order_id));
                return Err(RejectReason::DuplicateOrderId);
            }
            i += 1;
        }
        assert(!has_order_id(self@, o.order_id));
        let mut p: usize = 0;
        while p < n && !Self::beats(self.side, &o, &self.orders[p])
            invariant
                self == old(self),
                n == self@.len(),
                p <= n,
                forall|j: int| 0 <= j < p ==> !higher_priority(self.side, o, #[trigger] self@[j]),
            decreases n - p,
        {
            p += 1;
        }
        proof {
            lemma_insert_pos_is(self.side, self@, o, p as int);
        }
        self.orders.insert(p, o);
        proof {
            let side = old(self).side;
            let s = old(self)@;
            let t = self@;
            let pos = p as int;
            assert forall|a: int, b: int| 0 <= a < b < t.len() implies higher_priority(
                side,
                t[a],
                t[b],
            ) by {
                if a < pos && b == pos {
                    // an entry left of the slot was not outranked by o, and
                    // with a distinct sequence that makes it outrank o
                    assert(!higher_priority(side, o, s[a]));
                } else if a == pos && b > pos {
                    assert(higher_priority(side, o, s[pos]));
                    assert(higher_priority(side, s[pos], t[b]) || b == pos + 1);
                } else if a < pos && b > pos {
                    assert(higher_priority(side, s[a], s[b - 1]));
                }
            }
            assert(entries_wf(side, old(self).instrument_id, t));
            assert forall|a: int, b: int| 0 <= a < b < t.len() implies t[a].order_id
                != t[b].order_id by {
                if a == pos || b == pos {
                    assert(!has_order_id(s, o.order_id));
                }
            }
        }
        Ok(())
    }

    /// The resting order that carries `order_id`, left in place.
    pub fn find(&self, order_id: u64) -> (r: Option<Order>)
        ensures
            match r {
                Some(o) => has_order_id(self@, order_id) && o == self@[idx_of_id(self@, order_id)],
                None => !has_order_id(self@, order_id),
            },
    {
        let n = self.orders.len();
        let mut i: usize = 0;
        while i < n
            invariant
                n == self@.len(),
                i <= n,
                forall|j: int| 0 <= j < i ==> (#[trigger] self@[j]).order_id != order_id,
            decreases n - i,
        {
            if self.orders[i].order_id == order_id {
                proof {
                    lemma_idx_of_id_is(self@, order_id, i as int);
                }
                return Some(self.orders[i]);
            }
            i += 1;
        }
        None
    }

    /// Removes the resting order that carries `order_id`, wherever it stands;
    /// used by cancel and by repositioning amends.
    pub fn remove(&mut self, order_id: u64) -> (r: Result<Order, RejectReason>)
        requires
            old(self).wf(),
        ensures
            final(self).wf(),
            final(self).side == old(self).side,
            final(self).instrument_id == old(self).instrument_id,
            match r {
                Ok(o) => {
                    &&& has_order_id(old(self)@, order_id)
                    &&& o == old(self)@[idx_of_id(old(self)@, order_id)]
                    &&& final(self)@ == old(self)@.remove(idx_of_id(old(self)@, order_id))
                },
                Err(reason) => {
                    &&& reason == RejectReason::NotFound
                    &&& !has_order_id(old(self)@, order_id)
                    &&& final(self)@ == old(self)@
                },
            },
    {
        let n = self.orders.len();
        let mut i: usize = 0;
        while i < n
            invariant
                self == old(self),
                old(self).wf(),
                n == self@.len(),
                i <= n,
                forall|j: int| 0 <= j < i ==> (#[trigger] self@[j]).order_id != order_id,
            decreases n - i,
        {
            if self.orders[i].order_id == order_id {
                proof {
                    lemma_idx_of_id_is(self@, order_id, i as int);
                }
                let o = self.orders.remove(i);
                proof {
                    let side = old(self).side;
                    let s = old(self)@;
                    let t = self@;
                    assert(t =~= s.remove(i as int));
                    assert forall|a: int, b: int| 0 <= a < b < t.len() implies higher_priority(
                        side,
                        t[a],
                        t[b],
                    ) by {
                        assert(t[a] == if a < i { s[a] } else { s[a + 1] });
                        assert(t[b] == if b < i { s[b] } else { s[b + 1] });
                    }
                    assert forall|a: int, b: int| 0 <= a < b < t.len() implies t[a].order_id
                        != t[b].order_id by {
                        assert(t[a] == if a < i { s[a] } else { s[a + 1] });
                        assert(t[b] == if b < i { s[b] } else { s[b + 1] });
                    }
                    assert forall|a: int| 0 <= a < t.len() implies {
                        &&& (#[trigger] t[a]).restable()
                        &&& t[a].side == side
                        &&& t[a].order_type == OrderType::Limit
                        &&& t[a].instrument_id == old(self).instrument_id
                    } by {
                        assert(t[a] == if a < i { s[a] } else { s[a + 1] });
                    }
                }
                return Ok(o);
            }
            i += 1;
        }
        Err(RejectReason::NotFound)
    }

    /// Decrements the remaining quantity of a specific resting order in
    /// place: a reduction caused by a fill or by an amend that only shrinks
    /// the order does not reset its price-time priority.
    ///
    /// The decrement must leave some quantity behind; an order that reaches
    /// zero leaves the queue through `pop_best` or `remove` instead.
    pub fn reduce(&mut self, order_id: u64, delta_qty: u64) -> (r: Result<(), RejectReason>)
        requires
            old(self).wf(),
            has_order_id(old(self)@, order_id) ==> delta_qty < old(self)@[idx_of_id(
                old(self)@,
                order_id,
            )].leaves_qty,
        ensures
            final(self).wf(),
            final(self).side == old(self).side,
            final(self).instrument_id == old(self).instrument_id,
            match r {
                Ok(()) => {
                    &&& has_order_id(old(self)@, order_id)
                    &&& {
                        let i = idx_of_id(old(self)@, order_id);
                        let o = old(self)@[i];
                        final(self)@ == old(self)@.update(
                            i,
                            Order { leaves_qty: (o.leaves_qty - delta_qty) as u64, ..o },
                        )
                    }
                },
                Err(reason) => {
                    &&& reason == RejectReason::NotFound
                    &&& !has_order_id(old(self)@, order_id)
                    &&& final(self)@ == old(self)@
                },
            },
    {
        let n = self.orders.len();
        let mut i: usize = 0;
        while i < n
            invariant
                self == old(self),
                old(self).wf(),
                has_order_id(old(self)@, order_id) ==> delta_qty < old(self)@[idx_of_id(
                    old(self)@,
                    order_id,
                )].leaves_qty,
                n == self@.len(),
                i <= n,
                forall|j: int| 0 <= j < i ==> (#[trigger] self@[j]).order_id != order_id,
            decreases n - i,
        {
            if self.orders[i].order_id == order_id {
                proof {
                    lemma_idx_of_id_is(self@, order_id, i as int);
                }
                let mut o = self.orders[i];
                o.leaves_qty = o.leaves_qty - delta_qty;
                self.orders[i] = o;
                proof {
                    Self::lemma_same_priority_update(
                        old(self).side,
                        old(self).instrument_id,
                        old(self)@,
                        i as int,
                        o,
                    );
                }
                return Ok(());
            }
            i += 1;
        }
        Err(RejectReason::NotFound)
    }

    /// Applies a partial fill to the best resting order: its remaining
    /// quantity shrinks by `exec_qty`, its status moves to `PartiallyFilled`,
    /// and it keeps its position at the top of the queue.
    pub fn fill_best(&mut self, exec_qty: u64)
        requires
            old(self).wf(),
            old(self)@.len() > 0,
            0 < exec_qty < old(self)@[0].leaves_qty,
        ensures
            final(self).wf(),
            final(self).side == old(self).side,
            final(self).instrument_id == old(self).instrument_id,
            final(self)@ == old(self)@.update(
                0,
                Order {
                    leaves_qty: (old(self)@[0].leaves_qty - exec_qty) as u64,
                    status: OrderStatus::PartiallyFilled,
                    ..old(self)@[0]
                },
            ),
    {
        let mut o = self.orders[0];
        o.leaves_qty = o.leaves_qty - exec_qty;
        o.status = OrderStatus::PartiallyFilled;
        self.orders[0] = o;
        proof {
            Self::lemma_same_priority_update(
                old(self).side,
                old(self).instrument_id,
                old(self)@,
                0,
                o,
            );
        }
    }

    /// Replacing an entry with one of the same id, price and sequence (and a
    /// still-restable body) preserves the queue invariant.
    proof fn lemma_same_priority_update(side: Side, instrument_id: u64, s: Seq<Order>, i: int, o: Order)
        requires
            queue_sorted(side, s),
            entries_wf(side, instrument_id, s),
            unique_order_ids(s),
            0 <= i < s.len(),
            o.restable(),
            o.side == side,
            o.order_type == OrderType::Limit,
            o.instrument_id == instrument_id,
            o.order_id == s[i].order_id,
            o.limit_price == s[i].limit_price,
            o.sequence == s[i].sequence,
        ensures
            queue_sorted(side, s.update(i, o)),
            entries_wf(side, instrument_id, s.update(i, o)),
            unique_order_ids(s.update(i, o)),
    {
        let t = s.update(i, o);
        assert forall|a: int, b: int| 0 <= a < b < t.len() implies higher_priority(
            side,
            t[a],
            t[b],
        ) by {
            assert(higher_priority(side, s[a], s[b]));
        }
    }
}

} // verus!
