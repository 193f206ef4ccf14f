//! Cancellation tokens.
//!
//! A token is shared between the documents' owner and the worker. It stores the latest
//! committed generation of a URI. The owner may change it at any time, so two readings of one
//! token may differ.
use std::sync::atomic::{AtomicU64, Ordering};
use vstd::prelude::*;

verus! {

/// A reading of the token returned `value`.
pub open spec fn token_read(cancel_token: AtomicU64, value: u64) -> bool {
    call_ensures(AtomicU64::load, (&cancel_token, Ordering::SeqCst), value)
}

/// Some reading of the token returned a generation other than this one, or this very one, as
/// `cancelled` says.
pub open spec fn token_says(cancel_token: AtomicU64, generation: u64, cancelled: bool) -> bool {
    exists|latest: u64| #[trigger]
        token_read(cancel_token, latest) && cancelled == (latest != generation)
}

/// Whether a reading of a token makes work for `generation` stale: any other generation does,
/// an older one too.
pub fn is_superseded(latest: u64, generation: u64) -> (superseded: bool)
    ensures
        superseded == (latest != generation),
{
    latest != generation
}

/// Reads the token and says whether work for `generation` is stale.
pub fn is_cancelled(cancel_token: &AtomicU64, generation: u64) -> (cancelled: bool)
    ensures
        token_says(*cancel_token, generation, cancelled),
{
    let latest: u64 = cancel_token.load(Ordering::SeqCst);
    assert(token_read(*cancel_token, latest));
    is_superseded(latest, generation)
}

} // verus!
