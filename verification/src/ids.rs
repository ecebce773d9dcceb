//! Order and trade identifiers for the outside world.
//!
//! Internally every id is a plain `u64`.  New ids are drawn from a version 4
//! UUID — random, so the engine's duplicate check stays the authority on
//! uniqueness — and an id is rendered for the wire as the 22-character blob
//! encoding of the UUID built from the instrument and order ids.

use vstd::prelude::*;

verus! {

/// The blob encoding of the UUID whose two halves are `hi` and `lo`.  Its
/// value is pinned only by the encoder itself; it depends on the two words
/// alone.
pub uninterp spec fn blob_of(hi: u64, lo: u64) -> Seq<char>;

/// Relies on `uuid::Uuid::new_v4` for a fresh random identifier, keeping
/// its low 64 bits (`Uuid::as_u64_pair` splits the value).  Nothing is
/// promised of the result: two calls may collide, and the book's duplicate
/// rejection is the sole guard against reuse.
#[verifier::external_body]
fn random_id() -> u64 {
    uuid::Uuid::new_v4().as_u64_pair().1
}

/// Draws a fresh order id.  Randomness gives no promises; callers must
/// treat a collision as a duplicate submission.
pub fn fresh_order_id() -> u64 {
    random_id()
}

/// Relies on `blob_uuid::to_blob`: the 22-character URL-safe encoding of a
/// UUID's 16 bytes, a function of those bytes alone
/// (`uuid::Uuid::from_u64_pair` builds the argument from the two words).
#[verifier::external_body]
fn encode_pair(hi: u64, lo: u64) -> (r: String)
    ensures
        r@ == blob_of(hi, lo),
        r@.len() == 22,
{
    blob_uuid::to_blob(&uuid::Uuid::from_u64_pair(hi, lo))
}

/// The wire reference of an order: the blob encoding of the UUID built
/// from its instrument id and its order id.
pub fn order_ref(instrument_id: u64, order_id: u64) -> (r: String)
    ensures
        r@ == blob_of(instrument_id, order_id),
        r@.len() == 22,
{
    encode_pair(instrument_id, order_id)
}

} // verus!
