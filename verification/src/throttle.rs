use vstd::prelude::*;

verus! {

/// Least gap, in milliseconds, between two quote events sent to the front
/// end for one (account, symbol) pair.
pub const QUOTE_EMIT_GAP_MS: u128 = 200;

/// Least gap, in milliseconds, between two quote-driven trailing-stop checks
/// of one symbol.
pub const TRAILING_CHECK_GAP_MS: u128 = 1000;

/// Whether a throttled action may run now: it may when it never ran before
/// (`elapsed_ms` is `None`) or when at least `gap_ms` whole milliseconds have
/// passed since it last ran.
pub fn throttle_open(elapsed_ms: Option<u128>, gap_ms: u128) -> (r: bool)
    ensures
        r == match elapsed_ms {
            None => true,
            Some(e) => e >= gap_ms,
        },
{
    match elapsed_ms {
        None => true,
        Some(e) => e >= gap_ms,
    }
}

} // verus!
