//! The shared state word, and a record of the operations made on it.
//!
//! Other threads change the word at any time, so nothing can be said of its value
//! between two operations. What can be said is which operations an acquisition made
//! and what each of them returned: a [`Receipt`] holds just that. It exists in proofs
//! only and takes no space at run time.
//!
//! Every operation on the word is made for a receipt, is one that the receipt's phase
//! makes next, and is recorded in it. What a receipt holds did happen: nothing is
//! recorded but what a call on the atomic, with the arguments recorded, came to. And what
//! happened is held: a call that can change the word uses up a permit, and a receipt
//! counts the permits that are drawn from it.

pub(crate) mod attempt;
mod shared;

pub use self::shared::{Receipt, StateWord};
#[allow(unused_imports)]
use crate::phase;
use vstd::prelude::*;

verus! {

/// How an operation orders the memory accesses around it.
pub enum MemoryOrder {
    /// Not at all.
    Relaxed,
    /// Accesses after it stay after it, and see what was released before it.
    Acquire,
    /// Accesses before it stay before it, for whoever acquires afterwards.
    Release,
}

/// One operation on the state word, with what it was given and what it returned, or a
/// pause between two of them.
pub enum Event {
    /// A load that returned `value`.
    Load { order: MemoryOrder, value: u64 },
    /// A compare-and-exchange of `expected` for `new`. It succeeded and returned the
    /// word it replaced, or it failed, as a load, and returned the word it found. Only
    /// one that is not `strong` may fail though it found `expected`.
    Exchange {
        expected: u64,
        new: u64,
        strong: bool,
        success: MemoryOrder,
        failure: MemoryOrder,
        outcome: Result<u64, u64>,
    },
    /// A subtraction, wrapping at zero, from the word `previous`.
    Sub { amount: u64, order: MemoryOrder, previous: u64 },
    /// A bitwise and with the word `previous`.
    And { mask: u64, order: MemoryOrder, previous: u64 },
    /// A pause with a backoff that had counted `spins`: a busy spin, or a yield of the
    /// thread where `yielding`. It leaves the word alone.
    Pause { spins: u32, yielding: bool },
}

/// Whether `event` is a yield of the thread.
pub open spec fn is_yield(event: Event) -> bool {
    event matches Event::Pause { yielding, .. } && yielding
}

/// Whether a compare-and-exchange of `expected` can return `outcome`.
pub open spec fn can_return(expected: u64, strong: bool, outcome: Result<u64, u64>) -> bool {
    match outcome {
        Ok(replaced) => replaced == expected,
        Err(found) => strong ==> found != expected,
    }
}

/// Whether `event` is a call that can change the word.
pub open spec fn can_change(event: Event) -> bool {
    event is Exchange || event is Sub || event is And
}

/// How many of the operations of `log` are calls that can change the word.
pub open spec fn changing(log: Seq<Event>) -> nat
    decreases log.len(),
{
    if log.len() == 0 {
        0
    } else {
        changing(log.drop_last()) + (if can_change(log.last()) {
            1nat
        } else {
            0
        })
    }
}

/// Whether the operations of `log` were made on `word`, and those of them that can change
/// it are as many as the `permits` that were drawn for such calls: then no other call that
/// can change the word was made.
pub open spec fn accounted(word: StateWord, log: Seq<Event>, permits: nat) -> bool {
    &&& forall|i: int| 0 <= i < log.len() ==> word.made(#[trigger] log[i])
    &&& permits == changing(log)
}

/// One operation more takes the acquisition to its next phase.
pub proof fn operation_moves_on(earlier: Receipt, later: Receipt, event: Event)
    requires
        phase::run(earlier.start(), earlier.log()) is Some,
        later.extends(earlier, event),
    ensures
        phase::run(later.start(), later.log()) == phase::next(earlier.phase(), event),
        earlier.log().is_prefix_of(later.log()),
        ({
            &&& earlier.accounts_for_all()
            &&& later.of().made(event)
            &&& later.permits() == earlier.permits() + (if can_change(event) {
                1int
            } else {
                0
            })
        }) ==> later.accounts_for_all(),
{
    phase::run_push(earlier.start(), earlier.log(), event);
    assert(later.log().drop_last() =~= earlier.log());
    if earlier.accounts_for_all() && later.of().made(event) {
        assert forall|i: int| 0 <= i < later.log().len() implies later.of().made(
            #[trigger] later.log()[i],
        ) by {
            if i < earlier.log().len() {
                assert(later.log()[i] == earlier.log()[i]);
            }
        }
    }
}

} // verus!
