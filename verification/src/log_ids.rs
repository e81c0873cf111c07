use vstd::prelude::*;

verus! {

/// The successor of a log-id counter, wrapping at `u64::MAX` as an atomic
/// `fetch_add` does.
pub open spec fn successor(n: u64) -> u64 {
    if n == u64::MAX { 0 } else { (n + 1) as u64 }
}

/// Hands out the next log-entry id: returns the counter's current value and
/// advances it by one (wrapping).
pub fn next_log_id(counter: &mut u64) -> (id: u64)
    ensures
        id == *old(counter),
        *final(counter) == successor(*old(counter)),
{
    let id = *counter;
    *counter = counter.wrapping_add(1);
    id
}

/// Two ids handed out one after the other differ.
pub proof fn lemma_consecutive_ids_differ(counter: u64)
    ensures
        successor(counter) != counter,
{
}

/// The counter after `k` calls of `next_log_id` on a counter that started
/// at `start`; the call after those hands out this value as its id.
pub open spec fn advanced(start: u64, k: nat) -> u64
    decreases k,
{
    if k == 0 { start } else { successor(advanced(start, (k - 1) as nat)) }
}

/// After `k` calls the counter stands at `start + k`, modulo 2^64.
pub proof fn lemma_advanced_value(start: u64, k: nat)
    ensures
        advanced(start, k) as int == (start as int + k as int) % 0x1_0000_0000_0000_0000,
    decreases k,
{
    if k > 0 {
        lemma_advanced_value(start, (k - 1) as nat);
        let m: int = 0x1_0000_0000_0000_0000;
        let prev: int = (start as int + (k - 1) as int) % m;
        assert(advanced(start, (k - 1) as nat) as int == prev);
        vstd::arithmetic::div_mod::lemma_add_mod_noop(start as int + (k - 1) as int, 1, m);
        vstd::arithmetic::div_mod::lemma_mod_self_0(m);
        assert(1int % m == 1);
    }
}

/// The ids handed out by `n` successive calls on one counter, `n` at most
/// 2^64, are pairwise distinct; from a fresh counter they are exactly
/// `0, 1, .., n-1`.
pub proof fn lemma_ids_distinct(start: u64, n: nat)
    requires
        n <= 0x1_0000_0000_0000_0000,
    ensures
        forall|i: nat, j: nat| i < j < n ==> #[trigger] advanced(start, i) != #[trigger] advanced(start, j),
        start == 0 ==> forall|i: nat| i < n ==> #[trigger] advanced(start, i) == i,
{
    let m: int = 0x1_0000_0000_0000_0000;
    assert forall|i: nat, j: nat| i < j < n implies #[trigger] advanced(start, i) != #[trigger] advanced(start, j) by {
        lemma_advanced_value(start, i);
        lemma_advanced_value(start, j);
        let a: int = start as int + i as int;
        let b: int = start as int + j as int;
        assert(0 < b - a < m);
        if a % m == b % m {
            assert(false) by (nonlinear_arith)
                requires
                    a % m == b % m,
                    0 < b - a < m,
                    m > 0,
            ;
        }
    }
    if start == 0 {
        assert forall|i: nat| i < n implies #[trigger] advanced(start, i) == i by {
            lemma_advanced_value(start, i);
            vstd::arithmetic::div_mod::lemma_small_mod(i, m as nat);
        }
    }
}

} // verus!
