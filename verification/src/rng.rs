//! The ambient uniform random source.
//!
//! Every effect draws from the process-wide generator through the wrappers
//! here. Nothing is promised of a draw beyond its range: two calls on equal
//! arguments may differ, and the logic that consumes a draw is verified for
//! every value the range admits.

use vstd::prelude::*;

verus! {

/// Relies on fastrand::u8 over an inclusive range: a uniform draw in
/// [lo, hi]; the range lo..=hi is never empty when lo <= hi, so the call
/// cannot panic.
#[verifier::external_body]
pub(crate) fn rand_u8_between(lo: u8, hi: u8) -> (r: u8)
    requires
        lo <= hi,
    ensures
        lo <= r <= hi,
{
    fastrand::u8(lo..=hi)
}

/// Relies on fastrand::u32 over the full range: any u32 may come back.
#[verifier::external_body]
pub(crate) fn rand_u32() -> u32 {
    fastrand::u32(..)
}

/// Relies on fastrand::i32 over the full range: any i32 may come back.
#[verifier::external_body]
pub(crate) fn rand_i32() -> i32 {
    fastrand::i32(..)
}

/// Relies on fastrand::usize over the half-open range ..n: a uniform draw
/// below n; the range is non-empty for n >= 1, so the call cannot panic.
#[verifier::external_body]
pub(crate) fn rand_usize_below(n: usize) -> (r: usize)
    requires
        n >= 1,
    ensures
        r < n,
{
    fastrand::usize(..n)
}

/// Relies on rand::thread_rng and rand::Rng::gen_range over an inclusive
/// range: a uniform draw in [lo, hi]; the range lo..=hi is never empty when
/// lo <= hi, so the call cannot panic.
#[verifier::external_body]
pub(crate) fn rand_byte_between(lo: u8, hi: u8) -> (r: u8)
    requires
        lo <= hi,
    ensures
        lo <= r <= hi,
{
    rand::Rng::gen_range(&mut rand::thread_rng(), lo..=hi)
}

} // verus!
