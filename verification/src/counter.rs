//! Advisory counters: 64-bit values that wrap around instead of overflowing.
use vstd::prelude::*;

verus! {

/// The 64-bit counter value that stands for the integer `n`: `n` reduced into
/// the range of `u64`.
pub open spec fn wrap64(n: int) -> u64 {
    (n % 0x1_0000_0000_0000_0000) as u64
}

/// Adds `n` to a counter.
pub(crate) fn count_up(counter: &mut u64, n: u64)
    ensures
        *final(counter) == wrap64(*old(counter) + n),
{
    *counter = counter.wrapping_add(n);
}

/// Takes `n` from a counter.
pub(crate) fn count_down(counter: &mut u64, n: u64)
    ensures
        *final(counter) == wrap64(*old(counter) - n),
{
    *counter = counter.wrapping_sub(n);
}

/// A counter that follows `n` still does after both move by `d`.
pub proof fn lemma_wrap64_step(n: int, d: int)
    ensures
        wrap64(wrap64(n) + d) == wrap64(n + d),
{
    vstd::arithmetic::div_mod::lemma_add_mod_noop(n, d, 0x1_0000_0000_0000_0000);
    vstd::arithmetic::div_mod::lemma_add_mod_noop(
        n % 0x1_0000_0000_0000_0000,
        d,
        0x1_0000_0000_0000_0000,
    );
}

/// Within the range of `u64` a counter shows the integer itself.
pub proof fn lemma_wrap64_exact(n: int)
    requires
        0 <= n <= u64::MAX,
    ensures
        wrap64(n) == n,
{
}

} // verus!
