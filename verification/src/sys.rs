//! Wrappers around the random number generator and the system clock. Their
//! results depend on chance or on the machine, so the contracts state only
//! what holds of every outcome; the scoring logic takes the drawn values as
//! arguments and is verified for each of them.

use vstd::prelude::*;

verus! {

/// Relies on rand's `thread_rng` and `Rng::gen_range` on the inclusive range
/// `lo..=hi`: the sample lies in that range, and the range is non-empty (an
/// empty range would panic), so the call returns.
#[verifier::external_body]
pub(crate) fn rand_in(lo: u32, hi: u32) -> (r: u32)
    requires
        lo <= hi,
    ensures
        lo <= r <= hi,
{
    rand::Rng::gen_range(&mut rand::thread_rng(), lo..=hi)
}

/// Relies on std's `String::push`: appends exactly the given character at the
/// end of the string.
#[verifier::external_body]
pub(crate) fn push_char(s: &mut String, c: char)
    ensures
        final(s)@ == old(s)@.push(c),
{
    s.push(c);
}

/// The current time as whole seconds since the epoch. Nothing can be
/// promised of the clock's value.
pub fn now() -> u64 {
    read_clock()
}

/// Relies on std's `SystemTime::now` and `duration_since(UNIX_EPOCH)`: the
/// current time as whole seconds since the epoch. A clock before the epoch
/// reads as zero rather than panicking.
#[verifier::external_body]
fn read_clock() -> u64 {
    std::time::SystemTime::now()
        .duration_since(std::time::UNIX_EPOCH)
        .map(|d| d.as_secs())
        .unwrap_or(0)
}

} // verus!
