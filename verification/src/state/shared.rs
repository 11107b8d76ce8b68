//! The shared word itself. Nothing outside this file reaches the atomic.
//!
//! A call that can change the atomic uses up a permit of the record it is made for. The
//! standard library's own functions take no permit, but they may open any invariant, as
//! far as their specifications say: the functions below that change the word open none,
//! and so cannot call them.

mod receipt;

use self::receipt::Permit;
pub use self::receipt::Receipt;
#[allow(unused_imports)]
use crate::phase::Phase;
use crate::spin_rwlock::SpinRwLock;
#[allow(unused_imports)]
use crate::state;
#[allow(unused_imports)]
use crate::state::{Event, MemoryOrder};
use core::sync::atomic::{AtomicU64, Ordering};
use vstd::prelude::*;

verus! {

/// The shared word.
pub struct StateWord {
    word: AtomicU64,
    initial: Ghost<u64>,
}

/// The standard library's name for `order`.
spec fn name_of(order: MemoryOrder) -> Ordering {
    match order {
        MemoryOrder::Relaxed => Ordering::Relaxed,
        MemoryOrder::Acquire => Ordering::Acquire,
        MemoryOrder::Release => Ordering::Release,
    }
}

/// The standard library's name for `order`.
fn ordering(order: MemoryOrder) -> (std_order: Ordering)
    ensures
        std_order == name_of(order),
        order is Relaxed <==> std_order == Ordering::Relaxed,
        order is Acquire <==> std_order == Ordering::Acquire,
        order is Release <==> std_order == Ordering::Release,
    opens_invariants none
    no_unwind
{
    match order {
        MemoryOrder::Relaxed => Ordering::Relaxed,
        MemoryOrder::Acquire => Ordering::Acquire,
        MemoryOrder::Release => Ordering::Release,
    }
}

/// Calls `AtomicU64::compare_exchange`, which panics if it is told to release where it
/// fails. `Ok` holds the word that was replaced, which was `expected`; `Err` holds
/// another word, found in its place. Which of the two it is is up to the other threads.
/// The call uses up a permit.
#[verifier::external_body]
pub(crate) fn atomic_compare_exchange(
    word: &AtomicU64,
    expected: u64,
    new: u64,
    success: Ordering,
    failure: Ordering,
    _permit: Permit,
) -> (outcome: Result<u64, u64>)
    requires
        failure != Ordering::Release,
        failure != Ordering::AcqRel,
    ensures
        state::can_return(expected, true, outcome),
    opens_invariants none
{
    word.compare_exchange(expected, new, success, failure)
}

/// Calls `AtomicU64::compare_exchange_weak`, which panics if it is told to release where
/// it fails. `Ok` holds the word that was replaced, which was `expected`; `Err` holds
/// the word that was found, which may be `expected` too, as the weak form may fail for
/// no reason. The call uses up a permit.
#[verifier::external_body]
pub(crate) fn atomic_compare_exchange_weak(
    word: &AtomicU64,
    expected: u64,
    new: u64,
    success: Ordering,
    failure: Ordering,
    _permit: Permit,
) -> (outcome: Result<u64, u64>)
    requires
        failure != Ordering::Release,
        failure != Ordering::AcqRel,
    ensures
        state::can_return(expected, false, outcome),
    opens_invariants none
{
    word.compare_exchange_weak(expected, new, success, failure)
}

/// Calls `AtomicU64::fetch_sub`, which wraps at zero, never panics, and returns the word
/// it found. Which word that is is up to the other threads. The call uses up a permit.
#[verifier::external_body]
pub(crate) fn atomic_fetch_sub(
    word: &AtomicU64,
    amount: u64,
    order: Ordering,
    _permit: Permit,
) -> u64
    opens_invariants none
    no_unwind
{
    word.fetch_sub(amount, order)
}

/// Calls `AtomicU64::fetch_and`, which never panics and returns the word it found. Which
/// word that is is up to the other threads. The call uses up a permit.
#[verifier::external_body]
pub(crate) fn atomic_fetch_and(
    word: &AtomicU64,
    mask: u64,
    order: Ordering,
    _permit: Permit,
) -> u64
    opens_invariants none
    no_unwind
{
    word.fetch_and(mask, order)
}

impl StateWord {
    /// The value that the word was made with.
    pub closed spec fn initial(self) -> u64 {
        self.initial@
    }

    /// The atomic that holds the word.
    pub closed spec fn atomic(self) -> AtomicU64 {
        self.word
    }

    #[verifier::type_invariant]
    spec fn made_with_initial(self) -> bool {
        call_ensures(AtomicU64::new, (self.initial@,), self.word)
    }

    /// Whether a call of `compare_exchange` on the atomic returned `outcome`.
    spec fn exchanged(
        self,
        expected: u64,
        new: u64,
        success: Ordering,
        failure: Ordering,
        outcome: Result<u64, u64>,
    ) -> bool {
        exists|permit: Permit| #[trigger]
            call_ensures(
                atomic_compare_exchange,
                (&self.word, expected, new, success, failure, permit),
                outcome,
            )
    }

    /// Whether a call of `compare_exchange_weak` on the atomic returned `outcome`.
    spec fn exchanged_weakly(
        self,
        expected: u64,
        new: u64,
        success: Ordering,
        failure: Ordering,
        outcome: Result<u64, u64>,
    ) -> bool {
        exists|permit: Permit| #[trigger]
            call_ensures(
                atomic_compare_exchange_weak,
                (&self.word, expected, new, success, failure, permit),
                outcome,
            )
    }

    /// Whether a call of `fetch_sub` on the atomic returned `previous`.
    spec fn subtracted(self, amount: u64, order: Ordering, previous: u64) -> bool {
        exists|permit: Permit| #[trigger]
            call_ensures(atomic_fetch_sub, (&self.word, amount, order, permit), previous)
    }

    /// Whether a call of `fetch_and` on the atomic returned `previous`.
    spec fn masked(self, mask: u64, order: Ordering, previous: u64) -> bool {
        exists|permit: Permit| #[trigger]
            call_ensures(atomic_fetch_and, (&self.word, mask, order, permit), previous)
    }

    /// Whether `event` is what came of a call on this word's atomic, with the arguments
    /// that it names. A pause makes no such call.
    pub closed spec fn made(self, event: Event) -> bool {
        match event {
            Event::Load { order, value } => call_ensures(
                AtomicU64::load,
                (&self.word, name_of(order)),
                value,
            ),
            Event::Exchange { expected, new, strong, success, failure, outcome } => if strong {
                self.exchanged(expected, new, name_of(success), name_of(failure), outcome)
            } else {
                self.exchanged_weakly(expected, new, name_of(success), name_of(failure), outcome)
            },
            Event::Sub { amount, order, previous } => self.subtracted(
                amount,
                name_of(order),
                previous,
            ),
            Event::And { mask, order, previous } => self.masked(mask, name_of(order), previous),
            Event::Pause { .. } => true,
        }
    }

    /// Makes a word that holds `value`.
    pub(crate) fn new(value: u64) -> (state: StateWord)
        ensures
            state.initial() == value,
            call_ensures(AtomicU64::new, (value,), state.atomic()),
    {
        StateWord { word: AtomicU64::new(value), initial: Ghost(value) }
    }

    /// An empty record for an acquisition of `lock` that begins at `start`.
    pub(crate) fn receipt(lock: &SpinRwLock, Ghost(start): Ghost<Phase>) -> (receipt: Receipt)
        requires
            start.is_start(),
        ensures
            receipt.of() == lock.word(),
            receipt.start() == start,
            receipt.log() == Seq::<Event>::empty(),
            receipt.permits() == 0,
        opens_invariants none
    {
        Receipt::empty(lock, Ghost(start))
    }

    /// Loads the word, and records the load. A load cannot release. Which value comes
    /// back is up to the other threads.
    pub(super) fn load(&self, receipt: &mut Receipt, order: MemoryOrder) -> (value: u64)
        requires
            !(order is Release),
            old(receipt).of() == *self,
            forall|value: u64| #[trigger] old(receipt).makes(Event::Load { order, value }),
        ensures
            final(receipt).extends(*old(receipt), Event::Load { order, value }),
            final(receipt).permits() == old(receipt).permits(),
            self.made(Event::Load { order, value }),
    {
        let value: u64 = self.word.load(ordering(order));
        receipt.record(Ghost(Event::Load { order, value }));
        value
    }

    /// Exchanges `expected` for `new`, and records the exchange. It cannot release where
    /// it fails.
    pub(super) fn compare_exchange(
        &self,
        receipt: &mut Receipt,
        expected: u64,
        new: u64,
        success: MemoryOrder,
        failure: MemoryOrder,
    ) -> (outcome: Result<u64, u64>)
        requires
            !(failure is Release),
            old(receipt).of() == *self,
            forall|outcome: Result<u64, u64>|
                state::can_return(expected, true, outcome) ==> #[trigger] old(receipt).makes(
                    Event::Exchange { expected, new, strong: true, success, failure, outcome },
                ),
        ensures
            state::can_return(expected, true, outcome),
            final(receipt).extends(
                *old(receipt),
                Event::Exchange { expected, new, strong: true, success, failure, outcome },
            ),
            final(receipt).permits() == old(receipt).permits() + 1,
            self.made(Event::Exchange { expected, new, strong: true, success, failure, outcome }),
        opens_invariants none
    {
        let permit = receipt.permit();
        let outcome = atomic_compare_exchange(
            &self.word,
            expected,
            new,
            ordering(success),
            ordering(failure),
            permit,
        );
        let ghost event = Event::Exchange {
            expected,
            new,
            strong: true,
            success,
            failure,
            outcome,
        };
        assert(old(receipt).makes(event));
        receipt.record(Ghost(event));
        outcome
    }

    /// Exchanges `expected` for `new`, unless it fails for no reason, and records the
    /// exchange. It cannot release where it fails.
    pub(super) fn compare_exchange_weak(
        &self,
        receipt: &mut Receipt,
        expected: u64,
        new: u64,
        success: MemoryOrder,
        failure: MemoryOrder,
    ) -> (outcome: Result<u64, u64>)
        requires
            !(failure is Release),
            old(receipt).of() == *self,
            forall|outcome: Result<u64, u64>|
                state::can_return(expected, false, outcome) ==> #[trigger] old(receipt).makes(
                    Event::Exchange { expected, new, strong: false, success, failure, outcome },
                ),
        ensures
            state::can_return(expected, false, outcome),
            final(receipt).extends(
                *old(receipt),
                Event::Exchange { expected, new, strong: false, success, failure, outcome },
            ),
            final(receipt).permits() == old(receipt).permits() + 1,
            self.made(Event::Exchange { expected, new, strong: false, success, failure, outcome }),
        opens_invariants none
    {
        let permit = receipt.permit();
        let outcome = atomic_compare_exchange_weak(
            &self.word,
            expected,
            new,
            ordering(success),
            ordering(failure),
            permit,
        );
        let ghost event = Event::Exchange {
            expected,
            new,
            strong: false,
            success,
            failure,
            outcome,
        };
        assert(old(receipt).makes(event));
        receipt.record(Ghost(event));
        outcome
    }

    /// Subtracts `amount`, wrapping at zero, returns the word that was found, and records
    /// the subtraction.
    pub(crate) fn fetch_sub(
        &self,
        receipt: &mut Receipt,
        amount: u64,
        order: MemoryOrder,
    ) -> (previous: u64)
        requires
            old(receipt).of() == *self,
            forall|previous: u64| #[trigger]
                old(receipt).makes(Event::Sub { amount, order, previous }),
        ensures
            final(receipt).extends(*old(receipt), Event::Sub { amount, order, previous }),
            final(receipt).permits() == old(receipt).permits() + 1,
            self.made(Event::Sub { amount, order, previous }),
        opens_invariants none
        no_unwind
    {
        let permit = receipt.permit();
        let previous: u64 = atomic_fetch_sub(&self.word, amount, ordering(order), permit);
        assert(call_ensures(
            atomic_fetch_sub,
            (&self.word, amount, name_of(order), permit),
            previous,
        ));
        let ghost event = Event::Sub { amount, order, previous };
        assert(old(receipt).makes(event));
        receipt.record(Ghost(event));
        previous
    }

    /// Clears the bits outside `mask`, returns the word that was found, and records it.
    pub(crate) fn fetch_and(
        &self,
        receipt: &mut Receipt,
        mask: u64,
        order: MemoryOrder,
    ) -> (previous: u64)
        requires
            old(receipt).of() == *self,
            forall|previous: u64| #[trigger]
                old(receipt).makes(Event::And { mask, order, previous }),
        ensures
            final(receipt).extends(*old(receipt), Event::And { mask, order, previous }),
            final(receipt).permits() == old(receipt).permits() + 1,
            self.made(Event::And { mask, order, previous }),
        opens_invariants none
        no_unwind
    {
        let permit = receipt.permit();
        let previous: u64 = atomic_fetch_and(&self.word, mask, ordering(order), permit);
        assert(call_ensures(
            atomic_fetch_and,
            (&self.word, mask, name_of(order), permit),
            previous,
        ));
        let ghost event = Event::And { mask, order, previous };
        assert(old(receipt).makes(event));
        receipt.record(Ghost(event));
        previous
    }
}

/// What is recorded was done under the order that is recorded: a load, an exchange, a
/// subtraction or a masking came of a call on the atomic with just these arguments, and
/// with the standard library's `Relaxed`, `Acquire` or `Release` where the record says
/// so.
pub(crate) proof fn recorded_order_is_the_one_called_with(word: StateWord, event: Event)
    requires
        word.made(event),
    ensures
        event matches Event::Load { order: MemoryOrder::Relaxed, value } ==> call_ensures(
            AtomicU64::load,
            (&word.atomic(), Ordering::Relaxed),
            value,
        ),
        event matches Event::Load { order: MemoryOrder::Acquire, value } ==> call_ensures(
            AtomicU64::load,
            (&word.atomic(), Ordering::Acquire),
            value,
        ),
        event matches Event::Exchange {
            expected,
            new,
            strong: true,
            success: MemoryOrder::Acquire,
            failure: MemoryOrder::Relaxed,
            outcome,
        } ==> exists|permit: Permit| #[trigger]
            call_ensures(
                atomic_compare_exchange,
                (
                    &word.atomic(),
                    expected,
                    new,
                    Ordering::Acquire,
                    Ordering::Relaxed,
                    permit,
                ),
                outcome,
            ),
        event matches Event::Exchange {
            expected,
            new,
            strong: false,
            success: MemoryOrder::Acquire,
            failure: MemoryOrder::Relaxed,
            outcome,
        } ==> exists|permit: Permit| #[trigger]
            call_ensures(
                atomic_compare_exchange_weak,
                (
                    &word.atomic(),
                    expected,
                    new,
                    Ordering::Acquire,
                    Ordering::Relaxed,
                    permit,
                ),
                outcome,
            ),
        event matches Event::Exchange {
            expected,
            new,
            strong: false,
            success: MemoryOrder::Relaxed,
            failure: MemoryOrder::Relaxed,
            outcome,
        } ==> exists|permit: Permit| #[trigger]
            call_ensures(
                atomic_compare_exchange_weak,
                (
                    &word.atomic(),
                    expected,
                    new,
                    Ordering::Relaxed,
                    Ordering::Relaxed,
                    permit,
                ),
                outcome,
            ),
        event matches Event::Sub { amount, order: MemoryOrder::Release, previous } ==> exists|
            permit: Permit,
        | #[trigger]
            call_ensures(
                atomic_fetch_sub,
                (&word.atomic(), amount, Ordering::Release, permit),
                previous,
            ),
        event matches Event::And { mask, order: MemoryOrder::Release, previous } ==> exists|
            permit: Permit,
        | #[trigger]
            call_ensures(
                atomic_fetch_and,
                (&word.atomic(), mask, Ordering::Release, permit),
                previous,
            ),
{
}

} // verus!
