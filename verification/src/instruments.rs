//! Read shapes for instrument reference data and the paging rule used when
//! listing instruments.

use vstd::prelude::*;

use crate::registry::Instrument;

verus! {

/// The default page size of a listing that names none.
pub const DEFAULT_PAGE_LIMIT: usize = 20;

/// The path segment that names one instrument.
#[derive(Clone, Debug)]
pub struct InstrumentPath {
    pub id: String,
}

/// Pagination for listing instruments.
#[derive(Clone, Copy, Debug)]
pub struct InstrumentsParams {
    pub limit: Option<usize>,
    pub offset: Option<usize>,
}

/// Pagination for one instrument surface's listing; the same shape under
/// the name its handlers use.
#[derive(Clone, Copy, Debug)]
pub struct InstrumentParams {
    pub limit: Option<usize>,
    pub offset: Option<usize>,
}

/// A read of one instrument.
#[derive(Clone, Copy, Debug)]
pub struct GetInstrument {
    pub instrument_id: u64,
}

/// A listing of instruments.
#[derive(Clone, Copy, Debug)]
pub struct GetInstruments {
    pub params: InstrumentsParams,
}

/// The half-open index window a page selects from a listing of `len`
/// entries: `offset` clamped to the end, then at most `limit` entries.
pub open spec fn spec_page(len: int, limit: Option<usize>, offset: Option<usize>) -> (int, int) {
    let from = match offset {
        Some(o) => if o as int <= len {
            o as int
        } else {
            len
        },
        None => 0,
    };
    let want = match limit {
        Some(l) => l as int,
        None => DEFAULT_PAGE_LIMIT as int,
    };
    let until = if from + want <= len {
        from + want
    } else {
        len
    };
    (from, until)
}

/// The indices of the instruments a page of the listing shows, in listing
/// order.
pub fn instruments_page(all: &Vec<Instrument>, params: InstrumentsParams) -> (r: Vec<usize>)
    ensures
        ({
            let (from, until) = spec_page(all@.len() as int, params.limit, params.offset);
            &&& r@.len() == until - from
            &&& forall|k: int| 0 <= k < r@.len() ==> r@[k] == from + k
        }),
{
    let len = all.len();
    let from = match params.offset {
        Some(o) => if o <= len {
            o
        } else {
            len
        },
        None => 0,
    };
    let want = match params.limit {
        Some(l) => l,
        None => DEFAULT_PAGE_LIMIT,
    };
    let until = if want <= len - from {
        from + want
    } else {
        len
    };
    let mut out: Vec<usize> = Vec::new();
    let mut i: usize = from;
    while i < until
        invariant
            from <= i <= until || (i == from && until < from),
            until <= len,
            out@.len() == i - from,
            forall|k: int| 0 <= k < out@.len() ==> out@[k] == from + k,
        decreases until - i,
    {
        out.push(i);
        i += 1;
    }
    out
}

} // verus!
