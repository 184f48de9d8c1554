
use vstd::arithmetic::power2::{lemma_pow2_unfold, pow2};
use vstd::prelude::*;

verus! {

/// How a caller that lost a race waits before it tries again.
#[derive(Clone, Copy, Debug, PartialEq, Eq, Structural)]
pub enum Backoff {
    /// Pause so many instants.
    Spin(u32),
    /// Give way to other threads.
    Yield,
}

/// How often a caller spins, twice as long each time, before it gives way.
pub const SPIN_LOOPS: u32 = 6;

/// The next wait: `wait` counts how many there were.
pub fn backoff(wait: &mut u32) -> (r: Backoff)
    ensures
        *final(wait) == if *old(wait) == u32::MAX {
            u32::MAX as int
        } else {
            *old(wait) + 1
        },
        r == if *final(wait) <= SPIN_LOOPS {
            Backoff::Spin(pow2(*final(wait) as nat) as u32)
        } else {
            Backoff::Yield
        },
        r is Yield <==> *old(wait) >= 6,
        r matches Backoff::Spin(n) ==> n == pow2((*old(wait) + 1) as nat),
{
    *wait = wait.saturating_add(1);
    if *wait <= SPIN_LOOPS {
        let mut spins: u32 = 1;
        let mut i: u32 = 0;
        proof {
            vstd::arithmetic::power2::lemma2_to64();
        }
        while i < *wait
            invariant
                i <= *wait,
                *wait <= SPIN_LOOPS,
                spins == pow2(i as nat),
                pow2(0) == 1,
                pow2(1) == 2,
                pow2(2) == 4,
                pow2(3) == 8,
                pow2(4) == 16,
                pow2(5) == 32,
                pow2(6) == 64,
            decreases *wait - i,
        {
            proof {
                lemma_pow2_unfold((i + 1) as nat);
            }
            spins = spins * 2;
            i = i + 1;
        }
        Backoff::Spin(spins)
    } else {
        Backoff::Yield
    }
}

/// The deadline `d` after `now`, in clock ticks. A wait that the clock cannot express ends
/// at the farthest point that it can.
pub fn deadline_after(now: u64, d: u64) -> (at: u64)
    ensures
        at == if now + d <= u64::MAX {
            now + d
        } else {
            u64::MAX as int
        },
        at >= now,
        at - now <= d,
        at - now == d || at == u64::MAX,
{
    now.saturating_add(d)
}

} // verus!
