//! The record of what one acquisition has done.
//!
//! A call that can change a state word takes a [`Permit`], and uses it up. A permit is
//! drawn from a receipt, which counts it: so no more such calls are made for a receipt
//! than it counts.

#[allow(unused_imports)]
use super::StateWord;
#[allow(unused_imports)]
use crate::backoff;
use crate::backoff::Backoff;
#[allow(unused_imports)]
use crate::phase;
#[allow(unused_imports)]
use crate::phase::Phase;
#[allow(unused_imports)]
use crate::spin_rwlock::SpinRwLock;
#[allow(unused_imports)]
use crate::state;
#[allow(unused_imports)]
use crate::state::Event;
use vstd::prelude::*;

verus! {

/// The operations that one acquisition of a lock has made on one state word.
pub struct Receipt {
    of: Ghost<StateWord>,
    start: Ghost<Phase>,
    log: Ghost<Seq<Event>>,
    permits: Ghost<nat>,
}

/// Leave for one call on the atomic of a state word. It cannot be copied, and only a
/// receipt gives it out.
pub struct Permit {
    unit: (),
}

impl Receipt {
    /// The word that the operations were made on.
    pub closed spec fn of(self) -> StateWord {
        self.of@
    }

    /// Where the acquisition began.
    pub closed spec fn start(self) -> Phase {
        self.start@
    }

    /// The operations, oldest first.
    pub closed spec fn log(self) -> Seq<Event> {
        self.log@
    }

    /// How many permits were drawn.
    pub closed spec fn permits(self) -> nat {
        self.permits@
    }

    /// Where the acquisition stands.
    pub open spec fn phase(self) -> Phase {
        phase::run(self.start(), self.log())->0
    }

    /// Whether the acquisition makes the operation `event` next.
    pub open spec fn makes(self, event: Event) -> bool {
        phase::next(self.phase(), event) is Some
    }

    /// Whether this record is `earlier` with one operation more.
    pub open spec fn extends(self, earlier: Receipt, event: Event) -> bool {
        &&& self.of() == earlier.of()
        &&& self.start() == earlier.start()
        &&& self.log() == earlier.log().push(event)
    }

    /// Whether what is recorded was made on the word, and every permit that was drawn
    /// went into an operation that is recorded.
    pub open spec fn accounts_for_all(self) -> bool {
        state::accounted(self.of(), self.log(), self.permits())
    }

    /// A record holds nothing but operations that were made on its word, and that its
    /// phases make, from a start.
    #[verifier::type_invariant]
    pub open spec fn follows_phases(self) -> bool {
        &&& self.start().is_start()
        &&& phase::run(self.start(), self.log()) is Some
        &&& forall|i: int| 0 <= i < self.log().len() ==> self.of().made(#[trigger] self.log()[i])
    }

    /// An empty record of what is done to the word of `lock`. It is the lock that begins
    /// an acquisition: who works on a word has no lock at hand, and so no other record
    /// than the one it was given.
    pub(super) fn empty(lock: &SpinRwLock, Ghost(start): Ghost<Phase>) -> (receipt: Receipt)
        requires
            start.is_start(),
        ensures
            receipt.of() == lock.word(),
            receipt.start() == start,
            receipt.log() == Seq::<Event>::empty(),
            receipt.permits() == 0,
        opens_invariants none
    {
        Receipt {
            of: Ghost(lock.word()),
            start: Ghost(start),
            log: Ghost(Seq::empty()),
            permits: Ghost(0),
        }
    }

    /// Draws a permit.
    pub(super) fn permit(&mut self) -> (permit: Permit)
        ensures
            final(self).of() == old(self).of(),
            final(self).start() == old(self).start(),
            final(self).log() == old(self).log(),
            final(self).permits() == old(self).permits() + 1,
        opens_invariants none
        no_unwind
    {
        proof {
            use_type_invariant(&*self);
        }
        self.permits = Ghost(self.permits@ + 1);
        Permit { unit: () }
    }

    /// Records an operation that was made on the word, and that the acquisition makes
    /// next.
    pub(super) fn record(&mut self, Ghost(event): Ghost<Event>)
        requires
            old(self).of().made(event),
            old(self).makes(event),
        ensures
            final(self).of() == old(self).of(),
            final(self).start() == old(self).start(),
            final(self).log() == old(self).log().push(event),
            final(self).permits() == old(self).permits(),
        opens_invariants none
        no_unwind
    {
        proof {
            use_type_invariant(&*self);
            phase::run_push(self.start@, self.log@, event);
        }
        self.log = Ghost(self.log@.push(event));
    }

    /// Pauses between two operations, and records it. Returns whether the caller has
    /// to yield the thread.
    pub(in crate::state) fn pause(&mut self, backoff: &mut Backoff) -> (yielding: bool)
        requires
            old(self).makes(
                Event::Pause {
                    spins: old(backoff).spins,
                    yielding: backoff::yields(old(backoff).spins),
                },
            ),
        ensures
            yielding == backoff::yields(old(backoff).spins),
            final(backoff).spins == backoff::spec_spin(old(backoff).spins),
            final(self).extends(*old(self), Event::Pause { spins: old(backoff).spins, yielding }),
            final(self).permits() == old(self).permits(),
            final(self).of().made(Event::Pause { spins: old(backoff).spins, yielding }),
    {
        let ghost spins = backoff.spins;
        let yielding: bool = backoff.spin();
        self.record(Ghost(Event::Pause { spins, yielding }));
        yielding
    }
}

} // verus!
