//! Contracts for the outside items that the library calls.

use tokio_util::sync::CancellationToken;
use vstd::prelude::*;

verus! {

/// tokio_util's cooperative cancellation handle; carried through the
/// registry as an opaque value.
#[verifier::external_type_specification]
#[verifier::external_body]
pub struct ExCancellationToken(CancellationToken);

/// Relies on tokio_util's CancellationToken::new: makes a fresh handle.
pub assume_specification[ CancellationToken::new ]() -> CancellationToken;

/// Relies on tokio_util's Clone for CancellationToken: a second handle on the
/// same signal.
pub assume_specification[ <CancellationToken as Clone>::clone ](t: &CancellationToken) -> CancellationToken;

/// Relies on tokio_util's CancellationToken::cancel: signals the handle.
pub assume_specification[ CancellationToken::cancel ](t: &CancellationToken);

/// Relies on rand::random_range over an inclusive range: the value drawn lies
/// in the range, which must not be empty.
#[verifier::external_body]
pub(crate) fn draw_between(lo: u64, hi: u64) -> (r: u64)
    requires
        lo <= hi,
    ensures
        lo <= r <= hi,
{
    rand::random_range(lo..=hi)
}

/// What `str::to_lowercase` makes of a text.
pub uninterp spec fn lower_of(s: Seq<char>) -> Seq<char>;

/// Relies on std's str::to_lowercase: the Unicode lower case of the text,
/// which depends on its characters alone.
#[verifier::external_body]
pub(crate) fn lowercase(s: &str) -> (r: String)
    ensures
        r@ == lower_of(s@),
{
    s.to_lowercase()
}

} // verus!
