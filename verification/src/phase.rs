//! Which operations an acquisition makes on the state word.
//!
//! An acquisition goes through phases. In each phase at most one kind of operation
//! may come next, and what that operation is given is fixed by what the acquisition
//! has seen of the word. Its outcome picks the phase that follows.

#[allow(unused_imports)]
use crate::backoff;
#[allow(unused_imports)]
use crate::state;
#[allow(unused_imports)]
use crate::state::{Event, MemoryOrder};
#[allow(unused_imports)]
use crate::word;
#[allow(unused_imports)]
use crate::word::{ReadClaim, WRITER_MASK};
use vstd::prelude::*;

verus! {

/// What a waiting acquisition does next.
pub enum Turn {
    /// Acts on the word it has seen.
    Decide,
    /// Pauses, as an exchange has failed.
    Pause,
    /// Looks at the word again, having paused.
    Reload,
}

/// An acquisition that waits.
pub struct Wait {
    /// The word it has last seen.
    pub seen: u64,
    /// What its backoff has counted.
    pub spins: u32,
    pub turn: Turn,
}

impl Wait {
    /// A wait that begins with the word `seen`.
    pub open spec fn begin(seen: u64) -> Wait {
        Wait { seen, spins: 0, turn: Turn::Decide }
    }
}

/// Where an acquisition stands.
pub enum Phase {
    /// A blocking read that has done nothing yet.
    ReadStart,
    /// A blocking read that waits.
    ReadWait(Wait),
    /// A single attempt to read that has done nothing yet.
    TryReadStart,
    /// A single attempt to read that has seen this word.
    TryReadSeen(u64),
    /// A blocking write that has done nothing yet.
    WriteStart,
    /// A blocking write that waits to announce itself.
    Claiming(Wait),
    /// A blocking write that has announced itself and waits for the lock to drain.
    Draining(Wait),
    /// A single attempt to write that has done nothing yet.
    TryWriteStart,
    /// A read guard is live.
    Reading,
    /// A write guard is live.
    Writing,
    /// The guard was dropped.
    Released,
    /// A single attempt failed: it found another word than it had seen.
    Refused,
}

impl Phase {
    /// An acquisition begins here.
    pub open spec fn is_start(self) -> bool {
        self is ReadStart || self is TryReadStart || self is WriteStart || self is TryWriteStart
    }

    /// An announced writer, inside or not.
    pub open spec fn is_announced(self) -> bool {
        self is Draining || self is Writing
    }
}

/// The value that `event` loaded, where it is a relaxed load.
pub open spec fn loaded(event: Event) -> Option<u64> {
    match event {
        Event::Load { order: MemoryOrder::Relaxed, value } => Some(value),
        _ => None,
    }
}

/// The outcome of `event`, where it is an exchange as described that is relaxed where
/// it fails, and the outcome is one that such an exchange can have.
pub open spec fn exchanged(
    event: Event,
    expected: u64,
    new: u64,
    strong: bool,
    order: MemoryOrder,
) -> Option<Result<u64, u64>> {
    match event {
        Event::Exchange {
            expected: e,
            new: n,
            strong: s,
            success,
            failure: MemoryOrder::Relaxed,
            outcome,
        } => {
            if e == expected && n == new && s == strong && success == order && state::can_return(
                expected,
                strong,
                outcome,
            ) {
                Some(outcome)
            } else {
                None
            }
        },
        _ => None,
    }
}

/// Whether `event` clears the bits outside `mask`.
pub open spec fn masked(event: Event, mask: u64, order: MemoryOrder) -> bool {
    event matches Event::And { mask: m, order: o, .. } && m == mask && o == order
}

/// Whether `event` is the pause of a backoff that has counted `spins`.
pub open spec fn paused(event: Event, spins: u32) -> bool {
    event == Event::Pause { spins, yielding: backoff::yields(spins) }
}

/// The wait after the operation `event` of one that cannot go ahead. It pauses and
/// looks again; or, where it lost an exchange, it pauses and acts on the word that it
/// found instead.
pub open spec fn wait_next(wait: Wait, event: Event) -> Option<Wait> {
    match wait.turn {
        Turn::Reload => match loaded(event) {
            Some(value) => Some(Wait { seen: value, turn: Turn::Decide, ..wait }),
            None => None,
        },
        Turn::Decide => if paused(event, wait.spins) {
            Some(Wait { spins: backoff::spec_spin(wait.spins), turn: Turn::Reload, ..wait })
        } else {
            None
        },
        Turn::Pause => if paused(event, wait.spins) {
            Some(Wait { spins: backoff::spec_spin(wait.spins), turn: Turn::Decide, ..wait })
        } else {
            None
        },
    }
}

/// The wait after an exchange failed and found `found`.
pub open spec fn missed(wait: Wait, found: u64) -> Wait {
    Wait { seen: found, turn: Turn::Pause, ..wait }
}

/// The phase after a blocking read that waits makes the operation `event`.
pub open spec fn read_next(wait: Wait, event: Event) -> Option<Phase> {
    match (wait.turn, word::spec_claim_read(wait.seen)) {
        (Turn::Decide, ReadClaim::Full) => None,
        (Turn::Decide, ReadClaim::Enter(new)) => match exchanged(
            event,
            wait.seen,
            new,
            false,
            MemoryOrder::Acquire,
        ) {
            Some(Ok(_)) => Some(Phase::Reading),
            Some(Err(found)) => Some(Phase::ReadWait(missed(wait, found))),
            None => None,
        },
        _ => match wait_next(wait, event) {
            Some(later) => Some(Phase::ReadWait(later)),
            None => None,
        },
    }
}

/// The phase after a single attempt to read that has seen `seen` makes the operation
/// `event`.
pub open spec fn try_read_next(seen: u64, event: Event) -> Option<Phase> {
    match word::spec_claim_read(seen) {
        ReadClaim::Enter(new) => match exchanged(event, seen, new, true, MemoryOrder::Acquire) {
            Some(Ok(_)) => Some(Phase::Reading),
            Some(Err(_)) => Some(Phase::Refused),
            None => None,
        },
        _ => None,
    }
}

/// The phase after a writer that waits to announce itself makes the operation `event`.
pub open spec fn claiming_next(wait: Wait, event: Event) -> Option<Phase> {
    match (wait.turn, word::spec_claim_pending(wait.seen)) {
        (Turn::Decide, Some(new)) => match exchanged(
            event,
            wait.seen,
            new,
            false,
            MemoryOrder::Relaxed,
        ) {
            Some(Ok(_)) => Some(Phase::Draining(Wait::begin(new))),
            Some(Err(found)) => Some(Phase::Claiming(missed(wait, found))),
            None => None,
        },
        _ => match wait_next(wait, event) {
            Some(later) => Some(Phase::Claiming(later)),
            None => None,
        },
    }
}

/// The phase after an announced writer that waits makes the operation `event`.
pub open spec fn draining_next(wait: Wait, event: Event) -> Option<Phase> {
    match (wait.turn, word::spec_claim_holding(wait.seen)) {
        (Turn::Decide, Some(new)) => match exchanged(
            event,
            wait.seen,
            new,
            false,
            MemoryOrder::Acquire,
        ) {
            Some(Ok(_)) => Some(Phase::Writing),
            Some(Err(found)) => Some(Phase::Draining(missed(wait, found))),
            None => None,
        },
        _ => match wait_next(wait, event) {
            Some(later) => Some(Phase::Draining(later)),
            None => None,
        },
    }
}

/// The phase after `phase` when the operation `event` is made in it, or `None` where
/// `phase` does not make that operation.
pub open spec fn next(phase: Phase, event: Event) -> Option<Phase> {
    match phase {
        Phase::ReadStart => match loaded(event) {
            Some(value) => Some(Phase::ReadWait(Wait::begin(value))),
            None => None,
        },
        Phase::ReadWait(wait) => read_next(wait, event),
        Phase::TryReadStart => match loaded(event) {
            Some(value) => Some(Phase::TryReadSeen(value)),
            None => None,
        },
        Phase::TryReadSeen(seen) => try_read_next(seen, event),
        Phase::WriteStart => match loaded(event) {
            Some(value) => Some(Phase::Claiming(Wait::begin(value))),
            None => None,
        },
        Phase::Claiming(wait) => claiming_next(wait, event),
        Phase::Draining(wait) => draining_next(wait, event),
        Phase::TryWriteStart => match exchanged(event, 0, WRITER_MASK, true, MemoryOrder::Acquire) {
            Some(Ok(_)) => Some(Phase::Writing),
            Some(Err(_)) => Some(Phase::Refused),
            None => None,
        },
        Phase::Reading => match event {
            Event::Sub { amount: 1, order: MemoryOrder::Release, .. } => Some(Phase::Released),
            _ => None,
        },
        Phase::Writing => if masked(event, !WRITER_MASK, MemoryOrder::Release) {
            Some(Phase::Released)
        } else {
            None
        },
        Phase::Released => None,
        Phase::Refused => None,
    }
}

/// The phase that the operations of `log`, made one after the other, lead to from
/// `start`, or `None` where some phase on the way does not make the operation.
pub open spec fn run(start: Phase, log: Seq<Event>) -> Option<Phase>
    decreases log.len(),
{
    if log.len() == 0 {
        Some(start)
    } else {
        match run(start, log.drop_last()) {
            Some(phase) => next(phase, log.last()),
            None => None,
        }
    }
}

/// One operation more takes one more step.
pub proof fn run_push(start: Phase, log: Seq<Event>, event: Event)
    ensures
        run(start, log.push(event)) == (match run(start, log) {
            Some(phase) => next(phase, event),
            None => None,
        }),
{
    assert(log.push(event).drop_last() =~= log);
}

/// A guard comes to life by an exchange that succeeded and acquires, so whoever gets
/// it sees what was released before.
pub proof fn entering_acquires(phase: Phase, event: Event)
    requires
        next(phase, event) == Some(Phase::Reading) || next(phase, event) == Some(Phase::Writing),
    ensures
        event matches Event::Exchange { success, outcome, .. } && success == MemoryOrder::Acquire
            && outcome is Ok,
{
}

/// A live guard makes one operation, which releases, so whoever gets in next sees what
/// was done under it. After that it makes none.
pub proof fn leaving_releases(phase: Phase, event: Event)
    requires
        phase is Reading || phase is Writing,
        next(phase, event) is Some,
    ensures
        next(phase, event) == Some(Phase::Released),
        event is Sub || event is And,
        event matches Event::Sub { order, .. } ==> order == MemoryOrder::Release,
        event matches Event::And { order, .. } ==> order == MemoryOrder::Release,
        forall|later: Event| next(Phase::Released, later) is None,
{
}

/// Dropping a read guard, which records the subtraction, gives its lock back.
pub proof fn dropping_ends_reading(start: Phase, log: Seq<Event>, previous: u64)
    requires
        run(start, log) == Some(Phase::Reading),
    ensures
        run(
            start,
            log.push(Event::Sub { amount: 1, order: MemoryOrder::Release, previous }),
        ) == Some(Phase::Released),
{
    run_push(start, log, Event::Sub { amount: 1, order: MemoryOrder::Release, previous });
}

/// Dropping a write guard, which records the clearing of the writer bits, gives its
/// lock back.
pub proof fn dropping_ends_writing(start: Phase, log: Seq<Event>, previous: u64)
    requires
        run(start, log) == Some(Phase::Writing),
    ensures
        run(
            start,
            log.push(Event::And { mask: !WRITER_MASK, order: MemoryOrder::Release, previous }),
        ) == Some(Phase::Released),
{
    run_push(
        start,
        log,
        Event::And { mask: !WRITER_MASK, order: MemoryOrder::Release, previous },
    );
}

} // verus!
