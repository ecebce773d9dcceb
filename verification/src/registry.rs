//! The order book registry: instrument reference data, one book per live
//! instrument, and the routing of requests to the book of their instrument.
//!
//! Books of different instruments are independent; the registry serialises
//! nothing across them.  Retiring an instrument auto-cancels every resting
//! order of its book, so no orphaned liquidity survives.

use vstd::prelude::*;

use crate::book::spec_amend;
use crate::book::spec_cancel;
use crate::book::spec_cancel_each;
use crate::book::spec_submit;
use crate::book::BookModel;
use crate::book::NewOrderReq;
use crate::book::OrderBook;
use crate::types::Outcome;
use crate::types::RejectReason;

verus! {

/// Immutable reference data of one tradable instrument.  Fee rates are in
/// hundredths of a basis point; the matching engine itself never reads them.
#[derive(Clone, Debug)]
pub struct Instrument {
    pub instrument_id: u64,
    pub symbol: String,
    pub margin_asset: String,
    pub underlying_asset: String,
    pub maker_fee_bps: u64,
    pub taker_fee_bps: u64,
    pub routing_fee_bps: u64,
}

/// One request against a single instrument's book.
#[derive(Clone, Copy, Debug)]
pub enum BookRequest {
    New { req: NewOrderReq },
    Amend { order_id: u64, account_id: u64, new_price: Option<u64>, new_qty: Option<u64> },
    Cancel { order_id: u64, account_id: u64 },
}

/// What one routed request does to a book, as a pure transition.
pub open spec fn spec_apply(b: BookModel, req: BookRequest) -> (BookModel, Seq<Outcome>) {
    match req {
        BookRequest::New { req } => spec_submit(b, req),
        BookRequest::Amend { order_id, account_id, new_price, new_qty } => spec_amend(
            b,
            order_id,
            account_id,
            new_price,
            new_qty,
        ),
        BookRequest::Cancel { order_id, account_id } => spec_cancel(b, order_id, account_id),
    }
}

/// The stamp headroom a request needs from its book; a machine limit, not a
/// rule of the venue.
pub open spec fn spec_headroom(b: BookModel, req: BookRequest) -> bool {
    match req {
        BookRequest::New { req } => b.next_seq + b.opposite_queue(req.side).len() + 1 <= u64::MAX,
        BookRequest::Amend { .. } => b.next_seq < u64::MAX,
        BookRequest::Cancel { .. } => true,
    }
}

/// The first index of `s` whose book trades `instrument_id`.
pub open spec fn book_idx(s: Seq<OrderBook>, instrument_id: u64) -> int
    decreases s.len(),
{
    if s.len() == 0 {
        0
    } else if s[0].instrument_id == instrument_id {
        0
    } else {
        1 + book_idx(s.drop_first(), instrument_id)
    }
}

/// Whether some book of `s` trades `instrument_id`.
pub open spec fn has_book_in(s: Seq<OrderBook>, instrument_id: u64) -> bool {
    exists|k: int| 0 <= k < s.len() && (#[trigger] s[k]).instrument_id == instrument_id
}

/// `book_idx` points at the book of the instrument, when one is there.
pub proof fn lemma_book_idx(s: Seq<OrderBook>, instrument_id: u64)
    requires
        has_book_in(s, instrument_id),
    ensures
        0 <= book_idx(s, instrument_id) < s.len(),
        s[book_idx(s, instrument_id)].instrument_id == instrument_id,
    decreases s.len(),
{
    if s.len() > 0 && s[0].instrument_id != instrument_id {
        assert(has_book_in(s.drop_first(), instrument_id)) by {
            let w = choose|k: int|
                0 <= k < s.len() && (#[trigger] s[k]).instrument_id == instrument_id;
            assert(s.drop_first()[w - 1].instrument_id == instrument_id);
        }
        lemma_book_idx(s.drop_first(), instrument_id);
        assert(s[book_idx(s, instrument_id)] == s.drop_first()[book_idx(
            s.drop_first(),
            instrument_id,
        )]);
    }
}

/// `book_idx` is exactly the first index whose book trades the instrument.
pub proof fn lemma_book_idx_is(s: Seq<OrderBook>, instrument_id: u64, i: int)
    requires
        0 <= i < s.len(),
        s[i].instrument_id == instrument_id,
        forall|j: int| 0 <= j < i ==> (#[trigger] s[j]).instrument_id != instrument_id,
    ensures
        book_idx(s, instrument_id) == i,
    decreases s.len(),
{
    if s[0].instrument_id != instrument_id {
        let t = s.drop_first();
        assert(t[i - 1].instrument_id == instrument_id);
        assert(forall|j: int| 0 <= j < i - 1 ==> (#[trigger] t[j]).instrument_id != instrument_id);
        lemma_book_idx_is(t, instrument_id, i - 1);
    }
}

/// Routes requests to the order book of their instrument and owns the
/// instrument lifecycle.
pub struct Registry {
    /// The live books, one per active instrument.
    pub books: Vec<OrderBook>,
    /// Reference data of the active instruments, aligned with nothing:
    /// metadata only, the engine never reads it.
    pub instruments: Vec<Instrument>,
}

impl Registry {
    /// Every live book is well-formed and no instrument has two books.
    pub open spec fn wf(self) -> bool {
        &&& forall|k: int| 0 <= k < self.books@.len() ==> (#[trigger] self.books@[k]).wf()
        &&& forall|k: int, l: int|
            0 <= k < l < self.books@.len() ==> (#[trigger] self.books@[k]).instrument_id != (
            #[trigger] self.books@[l]).instrument_id
    }

    /// Whether an order book is live for `instrument_id`.
    pub open spec fn spec_has_book(self, instrument_id: u64) -> bool {
        has_book_in(self.books@, instrument_id)
    }

    /// The model of the live book for `instrument_id`.
    pub open spec fn spec_book(self, instrument_id: u64) -> BookModel {
        self.books@[book_idx(self.books@, instrument_id)]@
    }

    /// An empty venue: no instruments, no books.
    pub fn new() -> (r: Registry)
        ensures
            r.wf(),
            r.books@.len() == 0,
            r.instruments@.len() == 0,
    {
        Registry { books: Vec::new(), instruments: Vec::new() }
    }

    /// The index of the live book for `instrument_id`, if any.
    fn find_book(&self, instrument_id: u64) -> (r: Option<usize>)
        ensures
            match r {
                Some(i) => {
                    &&& self.spec_has_book(instrument_id)
                    &&& i == book_idx(self.books@, instrument_id)
                    &&& i < self.books@.len()
                    &&& self.books@[i as int].instrument_id == instrument_id
                },
                None => !self.spec_has_book(instrument_id),
            },
    {
        let n = self.books.len();
        let mut i: usize = 0;
        while i < n
            invariant
                n == self.books@.len(),
                i <= n,
                forall|j: int|
                    0 <= j < i ==> (#[trigger] self.books@[j]).instrument_id != instrument_id,
            decreases n - i,
        {
            if self.books[i].instrument_id == instrument_id {
                proof {
                    lemma_book_idx_is(self.books@, instrument_id, i as int);
                }
                return Some(i);
            }
            i += 1;
        }
        None
    }

    /// Activates an instrument: records its reference data and opens an
    /// empty book for it.  Returns whether a book was opened; an instrument
    /// that already has a live book is left untouched.
    pub fn activate(&mut self, instrument: Instrument) -> (r: bool)
        requires
            old(self).wf(),
        ensures
            final(self).wf(),
            r == !old(self).spec_has_book(instrument.instrument_id),
            final(self).spec_has_book(instrument.instrument_id),
            forall|x: u64|
                final(self).spec_has_book(x) == (old(self).spec_has_book(x) || x
                    == instrument.instrument_id),
            forall|x: u64|
                old(self).spec_has_book(x) ==> final(self).spec_book(x) == old(self).spec_book(x),
            r ==> final(self).spec_book(instrument.instrument_id) == (BookModel {
                instrument_id: instrument.instrument_id,
                bids: Seq::<crate::types::Order>::empty(),
                asks: Seq::<crate::types::Order>::empty(),
                known: Seq::<u64>::empty(),
                next_seq: 1,
            }),
    {
        let id = instrument.instrument_id;
        let found = self.find_book(id);
        match found {
            Some(_) => false,
            None => {
                let ghost s0 = self.books@;
                let book = OrderBook::new(id);
                self.books.push(book);
                self.instruments.push(instrument);
                proof {
                    let s1 = self.books@;
                    assert forall|x: u64| has_book_in(s0, x) implies has_book_in(s1, x)
                        && final(self).spec_book(x) == old(self).spec_book(x) by {
                        let w = choose|k: int|
                            0 <= k < s0.len() && (#[trigger] s0[k]).instrument_id == x;
                        assert(s1[w].instrument_id == x);
                        lemma_book_idx(s0, x);
                        lemma_book_idx(s1, x);
                        let i0 = book_idx(s0, x);
                        assert(s1[i0].instrument_id == x);
                        lemma_book_idx_is(s1, x, i0);
                    }
                    assert(s1[s1.len() - 1].instrument_id == id);
                    assert(has_book_in(s1, id));
                    assert forall|x: u64| has_book_in(s1, x) implies (has_book_in(s0, x) || x
                        == id) by {
                        let w = choose|k: int|
                            0 <= k < s1.len() && (#[trigger] s1[k]).instrument_id == x;
                        if w < s1.len() - 1 {
                            assert(s0[w].instrument_id == x);
                        }
                    }
                    assert forall|j: int| 0 <= j < s1.len() - 1 implies (#[trigger] s1[j]).instrument_id
                        != id by {
                        assert(s1[j] == s0[j]);
                    }
                    lemma_book_idx_is(s1, id, s1.len() - 1);
                    assert(final(self).spec_book(id) =~= (BookModel {
                        instrument_id: id,
                        bids: Seq::<crate::types::Order>::empty(),
                        asks: Seq::<crate::types::Order>::empty(),
                        known: Seq::<u64>::empty(),
                        next_seq: 1,
                    }));
                }
                true
            },
        }
    }

    /// Routes one request to the book of its instrument.  An instrument with
    /// no live book — never activated, or retired — rejects every request
    /// with `UnknownInstrument`.
    pub fn route(&mut self, instrument_id: u64, req: BookRequest) -> (r: Result<
        Vec<Outcome>,
        RejectReason,
    >)
        requires
            old(self).wf(),
            old(self).spec_has_book(instrument_id) ==> spec_headroom(
                old(self).spec_book(instrument_id),
                req,
            ),
        ensures
            final(self).wf(),
            forall|x: u64| final(self).spec_has_book(x) == old(self).spec_has_book(x),
            match r {
                Ok(outcomes) => {
                    &&& old(self).spec_has_book(instrument_id)
                    &&& outcomes@ == spec_apply(old(self).spec_book(instrument_id), req).1
                    &&& final(self).spec_book(instrument_id) == spec_apply(
                        old(self).spec_book(instrument_id),
                        req,
                    ).0
                    &&& forall|x: u64|
                        old(self).spec_has_book(x) && x != instrument_id ==> final(self).spec_book(x) == old(self).spec_book(x)
                },
                Err(reason) => {
                    &&& reason == RejectReason::UnknownInstrument
                    &&& !old(self).spec_has_book(instrument_id)
                    &&& *final(self) == *old(self)
                },
            },
    {
        let found = self.find_book(instrument_id);
        let i = match found {
            Some(i) => i,
            None => {
                return Err(RejectReason::UnknownInstrument);
            },
        };
        let ghost s0 = self.books@;
        let outcomes = match req {
            BookRequest::New { req } => self.books[i].submit_new(req),
            BookRequest::Amend { order_id, account_id, new_price, new_qty } => self.books[i].amend(
                order_id,
                account_id,
                new_price,
                new_qty,
            ),
            BookRequest::Cancel { order_id, account_id } => self.books[i].cancel(
                order_id,
                account_id,
            ),
        };
        proof {
            let s1 = self.books@;
            assert(s1 == s0.update(i as int, s1[i as int]));
            assert forall|x: u64| has_book_in(s1, x) == has_book_in(s0, x) by {
                if has_book_in(s0, x) {
                    let w = choose|k: int|
                        0 <= k < s0.len() && (#[trigger] s0[k]).instrument_id == x;
                    assert(s1[w].instrument_id == x);
                }
                if has_book_in(s1, x) {
                    let w = choose|k: int|
                        0 <= k < s1.len() && (#[trigger] s1[k]).instrument_id == x;
                    assert(s0[w].instrument_id == x);
                }
            }
            assert forall|x: u64| has_book_in(s0, x) && x != instrument_id implies final(self).spec_book(x) == old(self).spec_book(x) by {
                lemma_book_idx(s0, x);
                let i0 = book_idx(s0, x);
                assert(s1[i0].instrument_id == x);
                assert forall|j: int| 0 <= j < i0 implies (#[trigger] s1[j]).instrument_id != x by {
                    assert(s1[j].instrument_id == s0[j].instrument_id);
                }
                lemma_book_idx_is(s1, x, i0);
            }
            assert forall|j: int| 0 <= j < i implies (#[trigger] s1[j]).instrument_id
                != instrument_id by {
                assert(s1[j].instrument_id == s0[j].instrument_id);
            }
            lemma_book_idx_is(s1, instrument_id, i as int);
        }
        Ok(outcomes)
    }

    /// Submits a new order under a freshly drawn engine-assigned id and
    /// routes it.  The id is random, so nothing but the book's duplicate
    /// check vouches for its uniqueness: whatever id came back, the result
    /// is exactly the routed submission under that id.
    pub fn submit_new_order(
        &mut self,
        instrument_id: u64,
        account_id: u64,
        side: crate::types::Side,
        order_type: crate::types::OrderType,
        limit_price: u64,
        qty: u64,
    ) -> (r: (u64, Result<Vec<Outcome>, RejectReason>))
        requires
            old(self).wf(),
            old(self).spec_has_book(instrument_id) ==> old(self).spec_book(instrument_id).next_seq
                + old(self).spec_book(instrument_id).opposite_queue(side).len() + 1 <= u64::MAX,
        ensures
            final(self).wf(),
            forall|x: u64| final(self).spec_has_book(x) == old(self).spec_has_book(x),
            ({
                let req = NewOrderReq {
                    order_id: r.0,
                    account_id,
                    side,
                    order_type,
                    limit_price,
                    qty,
                };
                match r.1 {
                    Ok(outcomes) => {
                        &&& old(self).spec_has_book(instrument_id)
                        &&& outcomes@ == spec_submit(old(self).spec_book(instrument_id), req).1
                        &&& final(self).spec_book(instrument_id) == spec_submit(
                            old(self).spec_book(instrument_id),
                            req,
                        ).0
                        &&& forall|x: u64|
                            old(self).spec_has_book(x) && x != instrument_id ==> final(self).spec_book(x)
                                == old(self).spec_book(x)
                    },
                    Err(reason) => {
                        &&& reason == RejectReason::UnknownInstrument
                        &&& !old(self).spec_has_book(instrument_id)
                        &&& *final(self) == *old(self)
                    },
                }
            }),
    {
        let order_id = crate::ids::fresh_order_id();
        let req = NewOrderReq { order_id, account_id, side, order_type, limit_price, qty };
        let routed = self.route(instrument_id, BookRequest::New { req });
        (order_id, routed)
    }

    /// Retires an instrument: every order resting in its book is canceled,
    /// one outcome each in queue order (bids first), the book is destroyed
    /// and all further requests for the instrument are rejected.
    pub fn retire(&mut self, instrument_id: u64) -> (r: Result<Vec<Outcome>, RejectReason>)
        requires
            old(self).wf(),
        ensures
            final(self).wf(),
            match r {
                Ok(outcomes) => {
                    &&& old(self).spec_has_book(instrument_id)
                    &&& !final(self).spec_has_book(instrument_id)
                    &&& outcomes@ == spec_cancel_each(old(self).spec_book(instrument_id).bids)
                        + spec_cancel_each(old(self).spec_book(instrument_id).asks)
                    &&& forall|x: u64|
                        x != instrument_id ==> final(self).spec_has_book(x) == old(
                            self,
                        ).spec_has_book(x)
                    &&& forall|x: u64|
                        old(self).spec_has_book(x) && x != instrument_id ==> final(self).spec_book(x) == old(self).spec_book(x)
                },
                Err(reason) => {
                    &&& reason == RejectReason::UnknownInstrument
                    &&& !old(self).spec_has_book(instrument_id)
                    &&& *final(self) == *old(self)
                },
            },
    {
        let found = self.find_book(instrument_id);
        let i = match found {
            Some(i) => i,
            None => {
                return Err(RejectReason::UnknownInstrument);
            },
        };
        let ghost s0 = self.books@;
        let outcomes = self.books[i].drain();
        let ghost s1 = self.books@;
        let _ = self.books.remove(i);
        proof {
            let s2 = self.books@;
            assert(s1 == s0.update(i as int, s1[i as int]));
            assert(s2 == s1.remove(i as int));
            assert forall|x: u64| x != instrument_id implies has_book_in(s2, x) == has_book_in(
                s0,
                x,
            ) by {
                if has_book_in(s0, x) {
                    let w = choose|k: int|
                        0 <= k < s0.len() && (#[trigger] s0[k]).instrument_id == x;
                    assert(w != i);
                    if w < i {
                        assert(s2[w].instrument_id == x);
                    } else {
                        assert(s2[w - 1].instrument_id == x);
                    }
                }
                if has_book_in(s2, x) {
                    let w = choose|k: int|
                        0 <= k < s2.len() && (#[trigger] s2[k]).instrument_id == x;
                    if w < i {
                        assert(s0[w].instrument_id == x);
                    } else {
                        assert(s0[w + 1].instrument_id == x);
                    }
                }
            }
            assert forall|k: int| 0 <= k < s2.len() implies ((#[trigger] s2[k]).wf() && s2[k]
                == (if k < i {
                s0[k]
            } else {
                s0[k + 1]
            })) by {}
            assert(!has_book_in(s2, instrument_id));
            assert forall|x: u64| has_book_in(s0, x) && x != instrument_id implies final(self).spec_book(x) == old(self).spec_book(x) by {
                lemma_book_idx(s0, x);
                let i0 = book_idx(s0, x);
                if i0 < i {
                    assert(s2[i0].instrument_id == x);
                    assert forall|j: int| 0 <= j < i0 implies (#[trigger] s2[j]).instrument_id
                        != x by {
                        assert(s2[j] == s0[j]);
                    }
                    lemma_book_idx_is(s2, x, i0);
                } else {
                    assert(s2[i0 - 1].instrument_id == x);
                    assert forall|j: int| 0 <= j < i0 - 1 implies (#[trigger] s2[j]).instrument_id
                        != x by {
                        assert(s2[j] == (if j < i {
                            s0[j]
                        } else {
                            s0[j + 1]
                        }));
                    }
                    lemma_book_idx_is(s2, x, i0 - 1);
                }
            }
        }
        Ok(outcomes)
    }
}

} // verus!
