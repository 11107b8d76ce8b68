//! How a waiting thread spins, and when it makes room for others.

use vstd::prelude::*;

verus! {

/// Counts the busy-spins of a waiting thread.
pub struct Backoff {
    /// The spins since the wait began, set back by each yield.
    pub spins: u32,
}

/// `core::hint::spin_loop` tells the processor that the thread is spinning. It has no
/// effect that the program can see.
pub assume_specification[ core::hint::spin_loop ]();

/// Whether a thread that has spun `spins` times is to yield instead of spinning again.
pub open spec fn yields(spins: u32) -> bool {
    spins >= 200
}

/// The count after one more spin, or after a yield.
pub open spec fn spec_spin(spins: u32) -> u32 {
    if yields(spins) {
        190
    } else {
        (spins + 1) as u32
    }
}

/// The count after `n` spins and yields from a fresh start.
pub open spec fn spins_after(n: nat) -> u32
    decreases n,
{
    if n == 0 {
        0
    } else {
        spec_spin(spins_after((n - 1) as nat))
    }
}

impl Backoff {
    /// A fresh start.
    pub fn new() -> (backoff: Self)
        ensures
            backoff.spins == 0,
    {
        Backoff { spins: 0 }
    }

    /// Busy-spins once and returns `false`, or returns `true`: then the caller has to
    /// yield the thread in place of the spin.
    ///
    /// The first 200 calls spin. Then comes a yield, and 10 spins before each further
    /// one.
    pub fn spin(&mut self) -> (yielding: bool)
        ensures
            yielding == yields(old(self).spins),
            yielding == (old(self).spins >= 200),
            final(self).spins == spec_spin(old(self).spins),
            final(self).spins == (if yielding {
                190int
            } else {
                old(self).spins + 1
            }),
    {
        if self.spins < 200 {
            core::hint::spin_loop();
            self.spins += 1;
            false
        } else {
            self.spins = 190;
            true
        }
    }
}

/// The `n`-th call of `spin` on a fresh backoff asks for a yield exactly if it is the
/// 201st or comes a multiple of eleven calls after that: 200 spins stand before the
/// first yield, and 10 between one and the next.
pub proof fn yields_every_eleventh_call(n: nat)
    requires
        n >= 1,
    ensures
        yields(spins_after((n - 1) as nat)) <==> n >= 201 && (n - 201) % 11 == 0,
{
    count_after(((n - 1) as nat));
}

/// The count in closed form.
proof fn count_after(n: nat)
    ensures
        n <= 200 ==> spins_after(n) == n,
        n > 200 ==> spins_after(n) == 190 + (n - 201) % 11,
    decreases n,
{
    if n > 0 {
        count_after((n - 1) as nat);
    }
}

} // verus!
