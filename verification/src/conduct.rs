//! What a call does to the word, read off its record alone.
//!
//! What an acquisition does next follows from the last word that it saw, and from
//! nothing else: not from how long it has waited, nor from how often it was resumed.
//! The laws below say so operation by operation, in numbers: a word below
//! `0x4000_0000_0000_0000` has neither writer bit, and counts readers.

#[allow(unused_imports)]
use crate::backoff;
#[allow(unused_imports)]
use crate::phase;
#[allow(unused_imports)]
use crate::phase::{Phase, Turn, Wait};
#[allow(unused_imports)]
use crate::protocol;
#[allow(unused_imports)]
use crate::spin_rwlock;
#[allow(unused_imports)]
use crate::spin_rwlock::Progress;
#[allow(unused_imports)]
use crate::state;
#[allow(unused_imports)]
use crate::state::{Event, MemoryOrder, StateWord};
#[allow(unused_imports)]
use crate::word;
use vstd::prelude::*;

verus! {

/// What the last operations of a wait say of it: it acts on the word that it loaded, or
/// that a failed exchange found before the pause.
spec fn shows(log: Seq<Event>, wait: Wait) -> bool {
    &&& log.len() > 0
    &&& match wait.turn {
        Turn::Decide => {
            ||| log.last() == Event::Load { order: MemoryOrder::Relaxed, value: wait.seen }
            ||| {
                &&& log.len() > 1
                &&& log.last() is Pause
                &&& log[log.len() - 2] matches Event::Exchange { outcome: Err(found), .. }
                &&& found == wait.seen
            }
        },
        Turn::Pause => log.last() matches Event::Exchange { outcome: Err(found), .. } && found
            == wait.seen,
        Turn::Reload => {
            &&& log.len() > 1
            &&& log.last() is Pause
            &&& !(log[log.len() - 2] matches Event::Exchange { outcome: Err(_), .. })
        },
    }
}

/// Where a blocking read stands, by its last operations.
proof fn reader_stands(log: Seq<Event>)
    ensures
        match phase::run(Phase::ReadStart, log) {
            Some(Phase::ReadStart) => log.len() == 0,
            Some(Phase::ReadWait(wait)) => {
                &&& shows(log, wait)
                &&& forall|i: int|
                    0 <= i < log.len() ==> !(#[trigger] log[i] matches Event::Exchange {
                        outcome: Ok(_),
                        ..
                    })
            },
            Some(Phase::Reading) => {
                &&& log.len() > 0
                &&& log.last() matches Event::Exchange { outcome: Ok(_), .. }
            },
            Some(Phase::Released) => log.len() > 1 && log.last() is Sub,
            Some(_) => false,
            None => true,
        },
    decreases log.len(),
{
    if log.len() > 0 {
        let earlier = log.drop_last();
        reader_stands(earlier);
        if log.len() > 1 {
            reader_stands(earlier.drop_last());
            assert(earlier.last() == log[log.len() - 2]);
        }
        if phase::run(Phase::ReadStart, log) matches Some(Phase::ReadWait(_)) {
            assert forall|i: int|
                0 <= i < log.len() implies !(#[trigger] log[i] matches Event::Exchange {
                outcome: Ok(_),
                ..
            }) by {
                if i < earlier.len() {
                    assert(earlier[i] == log[i]);
                }
            }
        }
    }
}

/// A blocking read that has seen a word acts on that word, however long it has waited.
/// Where there is no writer it exchanges the word for one that counts one reader more,
/// whoever else is reading, and has the lock once that succeeds. Behind a writer it
/// pauses. At the limit of the count it makes no further operation.
pub proof fn reader_acts_on_the_word_it_saw(log: Seq<Event>, event: Event, seen: u64)
    requires
        phase::run(Phase::ReadStart, log.push(event)) is Some,
        log.len() > 0,
        ({
            ||| log.last() matches Event::Load { value, .. } && value == seen
            ||| {
                &&& log.len() > 1
                &&& log.last() is Pause
                &&& log[log.len() - 2] matches Event::Exchange { outcome: Err(found), .. }
                &&& found == seen
            }
        }),
    ensures
        seen != 0x3fff_ffff_ffff_ffff,
        seen < 0x3fff_ffff_ffff_ffff ==> ({
            &&& event matches Event::Exchange { expected, new, strong, success, failure, outcome }
            &&& expected == seen
            &&& new == seen + 1
            &&& !strong
            &&& success == MemoryOrder::Acquire
            &&& failure == MemoryOrder::Relaxed
            &&& outcome is Ok <==> phase::run(Phase::ReadStart, log.push(event)) == Some(
                Phase::Reading,
            )
        }),
        seen > 0x3fff_ffff_ffff_ffff ==> event is Pause,
{
    phase::run_push(Phase::ReadStart, log, event);
    reader_stands(log);
    word::encode_decode(seen);
}

/// What a blocking read does besides acting on a word: it begins with a load; after an
/// exchange that failed it pauses; after a pause it loads again, unless it paused as an
/// exchange had failed; and once it has the lock it takes itself off the count again,
/// which releases and is the last thing it does.
pub proof fn reader_looks_pauses_and_leaves(log: Seq<Event>, event: Event)
    requires
        phase::run(Phase::ReadStart, log.push(event)) is Some,
    ensures
        log.len() == 0 ==> event matches Event::Load { order: MemoryOrder::Relaxed, .. },
        log.len() > 0 && (log.last() matches Event::Exchange { outcome: Err(_), .. })
            ==> event is Pause,
        log.len() > 1 && log.last() is Pause && !(log[log.len() - 2] matches Event::Exchange {
            outcome: Err(_),
            ..
        }) ==> event matches Event::Load { order: MemoryOrder::Relaxed, .. },
        log.len() > 0 && (log.last() matches Event::Exchange { outcome: Ok(_), .. }) ==> (event
            matches Event::Sub { amount: 1, order: MemoryOrder::Release, .. }),
        log.len() > 0 ==> !(log.last() is Sub),
{
    phase::run_push(Phase::ReadStart, log, event);
    reader_stands(log);
}

/// How many of the operations of `log` are pauses.
pub open spec fn pauses(log: Seq<Event>) -> nat {
    log.filter(|event: Event| event is Pause).len()
}

/// One operation more is one pause more, or none.
proof fn pauses_push(log: Seq<Event>, event: Event)
    ensures
        pauses(log.push(event)) == pauses(log) + (if event is Pause {
            1int
        } else {
            0
        }),
{
    reveal(Seq::filter);
    assert(log.push(event).drop_last() =~= log);
}

/// What a backoff has counted after `n` pauses says whether the next one yields.
proof fn count_says_whether_it_yields(n: nat)
    ensures
        backoff::yields(backoff::spins_after(n)) <==> n >= 200 && (n - 200) % 11 == 0,
{
    backoff::yields_every_eleventh_call(n + 1);
}

/// What the backoff of a blocking read has counted.
proof fn reader_counts(log: Seq<Event>)
    ensures
        phase::run(Phase::ReadStart, log) matches Some(Phase::ReadWait(wait)) ==> wait.spins
            == backoff::spins_after(pauses(log)),
    decreases log.len(),
{
    reveal(Seq::filter);
    if log.len() > 0 {
        let earlier = log.drop_last();
        reader_counts(earlier);
        assert(earlier.push(log.last()) =~= log);
        pauses_push(earlier, log.last());
        reader_stands(earlier);
    }
}

/// A blocking read yields the thread at its 201st pause, and at every eleventh after
/// that. The other pauses only spin.
pub proof fn reader_yields_now_and_then(log: Seq<Event>, event: Event)
    requires
        phase::run(Phase::ReadStart, log.push(event)) is Some,
    ensures
        event matches Event::Pause { yielding, .. } ==> (yielding <==> pauses(log) >= 200 && (
        pauses(log) - 200) % 11 == 0),
{
    phase::run_push(Phase::ReadStart, log, event);
    reader_stands(log);
    reader_counts(log);
    count_says_whether_it_yields(pauses(log));
}

/// Whether the operation at `at` is the only exchange of `log` that succeeded.
spec fn succeeds_once(log: Seq<Event>, at: int) -> bool {
    &&& 0 <= at < log.len()
    &&& log[at] matches Event::Exchange { outcome: Ok(_), .. }
    &&& forall|i: int|
        0 <= i < log.len() && i != at ==> !(#[trigger] log[i] matches Event::Exchange {
            outcome: Ok(_),
            ..
        })
}

/// Where a blocking write stands, by its last operations.
proof fn writer_stands(log: Seq<Event>)
    ensures
        match phase::run(Phase::WriteStart, log) {
            Some(Phase::WriteStart) => log.len() == 0,
            Some(Phase::Claiming(wait)) => {
                &&& shows(log, wait)
                &&& forall|i: int|
                    0 <= i < log.len() ==> !(#[trigger] log[i] matches Event::Exchange {
                        outcome: Ok(_),
                        ..
                    })
            },
            Some(Phase::Draining(wait)) => exists|at: int| #[trigger]
                succeeds_once(log, at) && (shows(log, wait) || (at == log.len() - 1
                    && wait.turn is Decide && (log[at] matches Event::Exchange { new, .. } && new
                    == wait.seen))),
            Some(Phase::Writing) => {
                &&& log.len() > 1
                &&& log.last() matches Event::Exchange { outcome: Ok(_), .. }
                &&& exists|at: int| #[trigger] succeeds_once(log.drop_last(), at)
            },
            Some(Phase::Released) => log.len() > 2 && log.last() is And,
            Some(_) => false,
            None => true,
        },
    decreases log.len(),
{
    if log.len() > 0 {
        let earlier = log.drop_last();
        writer_stands(earlier);
        if log.len() > 1 {
            assert(earlier.last() == log[log.len() - 2]);
        }
        assert(forall|i: int| 0 <= i < earlier.len() ==> #[trigger] log[i] == earlier[i]);
        match phase::run(Phase::WriteStart, log) {
            Some(Phase::Claiming(_)) => {
                assert forall|i: int|
                    0 <= i < log.len() implies !(#[trigger] log[i] matches Event::Exchange {
                    outcome: Ok(_),
                    ..
                }) by {
                    if i < earlier.len() {
                        assert(earlier[i] == log[i]);
                    }
                }
            },
            Some(Phase::Draining(_)) => {
                if phase::run(Phase::WriteStart, earlier) matches Some(Phase::Claiming(_)) {
                    assert(succeeds_once(log, log.len() - 1));
                } else {
                    let at = choose|at: int| #[trigger] succeeds_once(earlier, at);
                    assert(succeeds_once(log, at));
                }
            },
            _ => {},
        }
    }
}

/// A blocking write that has not announced itself acts on the word that it saw, however
/// long it has waited. Where no other writer is pending it exchanges the word for the
/// same word with the pending bit, also where readers are inside. Otherwise it pauses.
pub proof fn writer_announces_itself_where_no_other_has(
    log: Seq<Event>,
    event: Event,
    seen: u64,
)
    requires
        phase::run(Phase::WriteStart, log.push(event)) is Some,
        forall|i: int|
            0 <= i < log.len() ==> !(#[trigger] log[i] matches Event::Exchange {
                outcome: Ok(_),
                ..
            }),
        log.len() > 0,
        ({
            ||| log.last() matches Event::Load { value, .. } && value == seen
            ||| {
                &&& log.len() > 1
                &&& log.last() is Pause
                &&& log[log.len() - 2] matches Event::Exchange { outcome: Err(found), .. }
                &&& found == seen
            }
        }),
    ensures
        (seen / 0x4000_0000_0000_0000) % 2 == 0 ==> ({
            &&& event matches Event::Exchange { expected, new, strong, success, failure, .. }
            &&& expected == seen
            &&& new == seen + 0x4000_0000_0000_0000
            &&& !strong
            &&& success == MemoryOrder::Relaxed
            &&& failure == MemoryOrder::Relaxed
        }),
        (seen / 0x4000_0000_0000_0000) % 2 == 1 ==> event is Pause,
{
    phase::run_push(Phase::WriteStart, log, event);
    writer_stands(log);
    word::encode_decode(seen);
    if exists|at: int| #[trigger] succeeds_once(log, at) {
        let at = choose|at: int| #[trigger] succeeds_once(log, at);
        assert(log[at] matches Event::Exchange { outcome: Ok(_), .. });
    }
}

/// A blocking write that has announced itself acts on the word that it saw, however long
/// it has waited: one that it loaded, one that a failed exchange found, or the one that
/// it announced itself by. Where nobody is inside it exchanges the word for the same
/// word with the holding bit, and has the lock once that succeeds. Otherwise it pauses.
pub proof fn announced_writer_enters_where_nobody_is_inside(
    log: Seq<Event>,
    event: Event,
    seen: u64,
    at: int,
)
    requires
        phase::run(Phase::WriteStart, log.push(event)) is Some,
        0 <= at < log.len(),
        log[at] matches Event::Exchange { outcome: Ok(_), .. },
        forall|i: int|
            0 <= i < log.len() && i != at ==> !(#[trigger] log[i] matches Event::Exchange {
                outcome: Ok(_),
                ..
            }),
        ({
            ||| log.last() matches Event::Load { value, .. } && value == seen
            ||| {
                &&& log.len() > 1
                &&& log.last() is Pause
                &&& log[log.len() - 2] matches Event::Exchange { outcome: Err(found), .. }
                &&& found == seen
            }
            ||| {
                &&& at == log.len() - 1
                &&& log[at] matches Event::Exchange { new, .. }
                &&& new == seen
            }
        }),
    ensures
        seen == 0 || seen == 0x4000_0000_0000_0000 ==> ({
            &&& event matches Event::Exchange { expected, new, strong, success, failure, outcome }
            &&& expected == seen
            &&& new == seen + 0x8000_0000_0000_0000
            &&& !strong
            &&& success == MemoryOrder::Acquire
            &&& failure == MemoryOrder::Relaxed
            &&& outcome is Ok <==> phase::run(Phase::WriteStart, log.push(event)) == Some(
                Phase::Writing,
            )
        }),
        seen != 0 && seen != 0x4000_0000_0000_0000 ==> event is Pause,
{
    phase::run_push(Phase::WriteStart, log, event);
    writer_stands(log);
    word::encode_decode(seen);
    match phase::run(Phase::WriteStart, log) {
        Some(Phase::Draining(wait)) => {
            let other = choose|at: int| #[trigger] succeeds_once(log, at) && (shows(log, wait)
                || (at == log.len() - 1 && wait.turn is Decide && (log[at] matches Event::Exchange {
                new,
                ..
            } && new == wait.seen)));
            assert(log[other] matches Event::Exchange { outcome: Ok(_), .. });
            assert(other == at);
        },
        Some(Phase::Writing) => {
            let other = choose|at: int| #[trigger] succeeds_once(log.drop_last(), at);
            assert(log[other] == log.drop_last()[other]);
        },
        _ => {},
    }
}

/// What a blocking write does besides acting on a word: it begins with a load; after an
/// exchange that failed it pauses; after a pause it loads again, unless it paused as an
/// exchange had failed; and once it has the lock it clears both writer bits, which
/// releases and is the last thing it does.
pub proof fn writer_looks_pauses_and_leaves(log: Seq<Event>, event: Event)
    requires
        phase::run(Phase::WriteStart, log.push(event)) is Some,
    ensures
        log.len() == 0 ==> event matches Event::Load { order: MemoryOrder::Relaxed, .. },
        log.len() > 0 && (log.last() matches Event::Exchange { outcome: Err(_), .. })
            ==> event is Pause,
        log.len() > 1 && log.last() is Pause && !(log[log.len() - 2] matches Event::Exchange {
            outcome: Err(_),
            ..
        }) ==> event matches Event::Load { order: MemoryOrder::Relaxed, .. },
        forall|i: int, j: int|
            0 <= i < j < log.len() && (#[trigger] log[i] matches Event::Exchange {
                outcome: Ok(_),
                ..
            }) && (#[trigger] log[j] matches Event::Exchange { outcome: Ok(_), .. }) ==> (event
                matches Event::And {
                mask: 0x3fff_ffff_ffff_ffff,
                order: MemoryOrder::Release,
                ..
            }),
        log.len() > 0 ==> !(log.last() is And),
{
    phase::run_push(Phase::WriteStart, log, event);
    writer_stands(log);
    assert(!word::WRITER_MASK == 0x3fff_ffff_ffff_ffffu64) by (bit_vector);
    if phase::run(Phase::WriteStart, log) matches Some(Phase::Draining(_)) {
        let at = choose|at: int| #[trigger] succeeds_once(log, at);
        assert(log[at] matches Event::Exchange { outcome: Ok(_), .. });
    }
}

/// What the backoff of a blocking write has counted: its pauses before it announced
/// itself, or those since.
proof fn writer_counts(log: Seq<Event>)
    ensures
        match phase::run(Phase::WriteStart, log) {
            Some(Phase::Claiming(wait)) => wait.spins == backoff::spins_after(pauses(log)),
            Some(Phase::Draining(wait)) => forall|at: int| #[trigger]
                succeeds_once(log, at) ==> wait.spins == backoff::spins_after(
                    pauses(log.skip(at + 1)),
                ),
            _ => true,
        },
    decreases log.len(),
{
    reveal(Seq::filter);
    if log.len() > 0 {
        let earlier = log.drop_last();
        writer_counts(earlier);
        writer_stands(earlier);
        assert(earlier.push(log.last()) =~= log);
        pauses_push(earlier, log.last());
        if let Some(Phase::Draining(wait)) = phase::run(Phase::WriteStart, log) {
            assert forall|at: int| #[trigger] succeeds_once(log, at) implies wait.spins
                == backoff::spins_after(pauses(log.skip(at + 1))) by {
                if at == log.len() - 1 {
                    assert(log.skip(at + 1) =~= Seq::empty());
                    if phase::run(Phase::WriteStart, earlier) matches Some(Phase::Draining(_)) {
                        let first = choose|first: int| #[trigger] succeeds_once(earlier, first);
                        assert(log[first] == earlier[first]);
                    }
                } else {
                    assert(log[at] == earlier[at]);
                    assert(forall|i: int|
                        0 <= i < earlier.len() ==> #[trigger] earlier[i] == log[i]);
                    assert(succeeds_once(earlier, at));
                    assert(earlier.skip(at + 1).push(log.last()) =~= log.skip(at + 1));
                    pauses_push(earlier.skip(at + 1), log.last());
                }
            }
        }
    }
}

/// A blocking write that has not announced itself yields the thread at its 201st pause,
/// and at every eleventh after that. The other pauses only spin.
pub proof fn writer_yields_now_and_then(log: Seq<Event>, event: Event)
    requires
        phase::run(Phase::WriteStart, log.push(event)) is Some,
        forall|i: int|
            0 <= i < log.len() ==> !(#[trigger] log[i] matches Event::Exchange {
                outcome: Ok(_),
                ..
            }),
    ensures
        event matches Event::Pause { yielding, .. } ==> (yielding <==> pauses(log) >= 200 && (
        pauses(log) - 200) % 11 == 0),
{
    phase::run_push(Phase::WriteStart, log, event);
    writer_stands(log);
    writer_counts(log);
    count_says_whether_it_yields(pauses(log));
    if phase::run(Phase::WriteStart, log) matches Some(Phase::Draining(_)) {
        let at = choose|at: int| #[trigger] succeeds_once(log, at);
        assert(log[at] matches Event::Exchange { outcome: Ok(_), .. });
    }
}

/// A blocking write that has announced itself counts its pauses anew: it yields the
/// thread at the 201st since then, and at every eleventh after that.
pub proof fn announced_writer_yields_now_and_then(log: Seq<Event>, event: Event, at: int)
    requires
        phase::run(Phase::WriteStart, log.push(event)) is Some,
        0 <= at < log.len(),
        log[at] matches Event::Exchange { outcome: Ok(_), .. },
        forall|i: int|
            0 <= i < log.len() && i != at ==> !(#[trigger] log[i] matches Event::Exchange {
                outcome: Ok(_),
                ..
            }),
    ensures
        event matches Event::Pause { yielding, .. } ==> (yielding <==> pauses(log.skip(at + 1))
            >= 200 && (pauses(log.skip(at + 1)) - 200) % 11 == 0),
{
    phase::run_push(Phase::WriteStart, log, event);
    writer_stands(log);
    writer_counts(log);
    assert(succeeds_once(log, at));
    count_says_whether_it_yields(pauses(log.skip(at + 1)));
}

/// A single attempt to read looks at the word once. Where it sees a writer or the count
/// at its limit it makes no further operation and fails. Otherwise it makes one strong
/// exchange for a word that counts one reader more, and succeeds exactly if that does.
pub proof fn try_read_makes_one_exchange(log: Seq<Event>)
    ensures
        spin_rwlock::try_read_outcome(log, true) <==> ({
            &&& log.len() == 2
            &&& log[0] matches Event::Load { order: MemoryOrder::Relaxed, value }
            &&& value < 0x3fff_ffff_ffff_ffff
            &&& log[1] == Event::Exchange {
                expected: value,
                new: (value + 1) as u64,
                strong: true,
                success: MemoryOrder::Acquire,
                failure: MemoryOrder::Relaxed,
                outcome: Ok(value),
            }
        }),
        spin_rwlock::try_read_outcome(log, false) <==> ({
            &&& log.len() == 1 || log.len() == 2
            &&& log[0] matches Event::Load { order: MemoryOrder::Relaxed, value }
            &&& log.len() == 1 <==> value >= 0x3fff_ffff_ffff_ffff
            &&& log.len() == 2 ==> ({
                &&& log[1] matches Event::Exchange {
                    expected,
                    new,
                    strong: true,
                    success: MemoryOrder::Acquire,
                    failure: MemoryOrder::Relaxed,
                    outcome: Err(found),
                }
                &&& expected == value
                &&& new == value + 1
                &&& found != value
            })
        }),
{
    protocol::attempt_lengths(log);
    reveal_with_fuel(phase::run, 4);
    if log.len() > 0 {
        if let Event::Load { value, .. } = log[0] {
            word::encode_decode(value);
        }
        assert(log.last() == log[log.len() - 1]);
    }
    if log.len() == 2 {
        assert(log.drop_last().last() == log[0]);
    }
}

/// A single attempt to write makes one strong exchange of zero for both writer bits, and
/// succeeds exactly if that does.
pub proof fn try_write_makes_one_exchange(log: Seq<Event>)
    ensures
        spin_rwlock::try_write_outcome(log, true) <==> log == seq![
            Event::Exchange {
                expected: 0,
                new: 0xc000_0000_0000_0000,
                strong: true,
                success: MemoryOrder::Acquire,
                failure: MemoryOrder::Relaxed,
                outcome: Ok(0),
            },
        ],
        spin_rwlock::try_write_outcome(log, false) <==> ({
            &&& log.len() == 1
            &&& log[0] matches Event::Exchange {
                expected: 0,
                new: 0xc000_0000_0000_0000,
                strong: true,
                success: MemoryOrder::Acquire,
                failure: MemoryOrder::Relaxed,
                outcome: Err(found),
            }
            &&& found != 0
        }),
{
    protocol::attempt_lengths(log);
    reveal_with_fuel(phase::run, 3);
    if log.len() > 0 {
        assert(log.last() == log[log.len() - 1]);
    }
    if log.len() == 1 {
        assert(log =~= seq![log[0]]);
    }
}

/// A single attempt to read that nobody interferes with goes by the word alone: it
/// succeeds exactly where there is no writer and the count is below its limit, next to any
/// number of readers, and then one reader more is counted. It makes one call that can
/// change the word where it sees that it may enter, and none where it does not.
pub proof fn try_read_goes_by_the_word(
    shared: StateWord,
    word: u64,
    log: Seq<Event>,
    permits: nat,
    acquired: bool,
)
    requires
        state::accounted(shared, log, permits),
        spin_rwlock::try_read_outcome(log, acquired),
        protocol::undisturbed(word, log),
    ensures
        acquired <==> word < 0x3fff_ffff_ffff_ffff,
        permits == (if acquired {
            1nat
        } else {
            0
        }),
        protocol::settled(word, log) == word + permits,
{
    try_read_makes_one_exchange(log);
    reveal_with_fuel(protocol::undisturbed, 3);
    reveal_with_fuel(protocol::settled, 3);
    reveal_with_fuel(state::changing, 3);
    if log.len() == 2 {
        assert(log.drop_last().last() == log[0]);
        assert(log.last() == log[1]);
    } else {
        assert(log.last() == log[0]);
    }
}

/// A single attempt to write that nobody interferes with goes by the word alone: it
/// succeeds exactly where the word is zero, and then both writer bits are set. Either way
/// it makes one call that can change the word.
pub proof fn try_write_goes_by_the_word(
    shared: StateWord,
    word: u64,
    log: Seq<Event>,
    permits: nat,
    acquired: bool,
)
    requires
        state::accounted(shared, log, permits),
        spin_rwlock::try_write_outcome(log, acquired),
        protocol::undisturbed(word, log),
    ensures
        acquired <==> word == 0,
        permits == 1,
        protocol::settled(word, log) == (if acquired {
            0xc000_0000_0000_0000
        } else {
            word
        }),
{
    try_write_makes_one_exchange(log);
    reveal_with_fuel(protocol::undisturbed, 2);
    reveal_with_fuel(protocol::settled, 2);
    reveal_with_fuel(state::changing, 2);
    assert(log.last() == log[0]);
}

/// What a call that waits for a read lock has done when it returns. It has the lock by
/// its last operation, an exchange that succeeded; or it stopped, as the last word that
/// it saw counts as many readers as can be; or its last operation is a yield. It makes
/// no other yield.
pub proof fn read_returns(log: Seq<Event>, from: int, progress: Progress)
    requires
        0 <= from <= log.len(),
        spin_rwlock::read_progress(log, from, progress),
    ensures
        phase::run(Phase::ReadStart, log) is Some,
        forall|i: int|
            from <= i < log.len() && (#[trigger] log[i] matches Event::Pause {
                yielding: true,
                ..
            }) ==> progress is Yield && i == log.len() - 1,
        progress is Acquired <==> log.len() > 0 && (log.last() matches Event::Exchange {
            outcome: Ok(_),
            ..
        }),
        progress is Overflow ==> log.len() > 0 && ({
            ||| log.last() matches Event::Load { value: 0x3fff_ffff_ffff_ffff, .. }
            ||| {
                &&& log.len() > 1
                &&& log.last() is Pause
                &&& log[log.len() - 2] matches Event::Exchange {
                    outcome: Err(0x3fff_ffff_ffff_ffff),
                    ..
                }
            }
        }),
        progress is Yield ==> from < log.len() && (log.last() matches Event::Pause {
            yielding: true,
            ..
        }),
{
    reader_stands(log);
    if log.len() > 0 {
        assert(log.last() == log[log.len() - 1]);
    }
}

/// What a call that waits for the write lock has done when it returns. It has the lock
/// by its last operation, the second exchange that succeeded; or its last operation is a
/// yield. It makes no other yield, and never stops.
pub proof fn write_returns(log: Seq<Event>, from: int, progress: Progress)
    requires
        0 <= from <= log.len(),
        spin_rwlock::write_progress(log, from, progress),
    ensures
        phase::run(Phase::WriteStart, log) is Some,
        forall|i: int|
            from <= i < log.len() && (#[trigger] log[i] matches Event::Pause {
                yielding: true,
                ..
            }) ==> progress is Yield && i == log.len() - 1,
        !(progress is Overflow),
        progress is Acquired ==> (log.last() matches Event::Exchange { outcome: Ok(_), .. }) && (
        exists|i: int|
            0 <= i < log.len() - 1 && (#[trigger] log[i] matches Event::Exchange {
                outcome: Ok(_),
                ..
            })),
        progress is Yield ==> from < log.len() && (log.last() matches Event::Pause {
            yielding: true,
            ..
        }),
{
    writer_stands(log);
    if log.len() > 0 {
        assert(log.last() == log[log.len() - 1]);
    }
    if progress is Acquired {
        let at = choose|at: int| #[trigger] succeeds_once(log.drop_last(), at);
        assert(log[at] == log.drop_last()[at]);
    }
}

/// What holds of the operations of a resumed call holds of all but the last of them, and
/// of the last.
proof fn resumed_up_to_the_last(word: u64, log: Seq<Event>, from: int)
    requires
        0 <= from < log.len(),
        protocol::undisturbed(word, log.skip(from)),
        protocol::no_spurious_failure(log.skip(from)),
    ensures
        protocol::undisturbed(word, log.drop_last().skip(from)),
        protocol::no_spurious_failure(log.drop_last().skip(from)),
        log.drop_last().take(from) == log.take(from),
        protocol::fresh(protocol::settled(word, log.drop_last().skip(from)), log.last()),
        !protocol::spurious(log.last()),
        protocol::settled(word, log.skip(from)) == protocol::effect(
            protocol::settled(word, log.drop_last().skip(from)),
            log.last(),
        ),
{
    let tail = log.skip(from);
    assert(tail.drop_last() =~= log.drop_last().skip(from));
    assert(tail.last() == log.last());
    assert(log.drop_last().take(from) =~= log.take(from));
    assert(tail.last() == tail[tail.len() - 1]);
    assert forall|i: int| 0 <= i < tail.drop_last().len() implies !protocol::spurious(
        #[trigger] tail.drop_last()[i],
    ) by {
        assert(tail.drop_last()[i] == tail[i]);
    }
}

/// What a resumed read has seen and done, if nobody interferes.
proof fn resumed_read_so_far(word: u64, log: Seq<Event>, from: int)
    requires
        1 <= from <= log.len(),
        phase::run(Phase::ReadStart, log.take(from)) matches Some(Phase::ReadWait(wait))
            && wait.spins == 190 && !(wait.turn is Pause) && (wait.turn is Decide ==> wait.seen
            != 0x3fff_ffff_ffff_ffff),
        protocol::undisturbed(word, log.skip(from)),
        protocol::no_spurious_failure(log.skip(from)),
    ensures
        match phase::run(Phase::ReadStart, log) {
            Some(Phase::ReadWait(wait)) => {
                &&& protocol::settled(word, log.skip(from)) == word
                &&& wait.turn is Pause ==> wait.seen == word
                &&& wait.turn is Decide && wait.seen == 0x3fff_ffff_ffff_ffff ==> wait.seen == word
                &&& wait.turn is Decide && wait.seen != word ==> wait.spins == 190
                &&& word <= 0x3fff_ffff_ffff_ffff ==> {
                    &&& wait.spins <= 191
                    &&& wait.turn is Pause ==> wait.spins == 190
                }
            },
            Some(Phase::Reading) => word < 0x3fff_ffff_ffff_ffff && protocol::settled(
                word,
                log.skip(from),
            ) == word + 1,
            Some(Phase::Released) => true,
            Some(_) => false,
            None => true,
        },
    decreases log.len(),
{
    if log.len() == from {
        assert(log.take(from) =~= log);
        assert(log.skip(from) =~= Seq::empty());
    } else {
        resumed_up_to_the_last(word, log, from);
        resumed_read_so_far(word, log.drop_last(), from);
        word::encode_decode(word);
        if let Some(Phase::ReadWait(wait)) = phase::run(Phase::ReadStart, log.drop_last()) {
            word::encode_decode(wait.seen);
        }
    }
}

/// A read that is resumed, and that nobody interferes with, comes to what the word says
/// then, whatever it said before. Where there is no writer it enters, and one reader more
/// is counted, however many there are; behind a writer it waits again; at the limit of
/// the count it stops. It knows no other reason to wait. Left out is a read that had come
/// upon the limit just before it yielded, for it stops there.
pub proof fn resumed_read_goes_by_the_word(
    word: u64,
    log: Seq<Event>,
    before: int,
    from: int,
    progress: Progress,
)
    requires
        1 < from <= log.len(),
        spin_rwlock::read_progress(log.take(from), before, Progress::Yield),
        !(log[from - 2] matches Event::Exchange { outcome: Err(0x3fff_ffff_ffff_ffff), .. }),
        spin_rwlock::read_progress(log, from, progress),
        protocol::undisturbed(word, log.skip(from)),
        protocol::no_spurious_failure(log.skip(from)),
    ensures
        word < 0x3fff_ffff_ffff_ffff ==> progress is Acquired && protocol::settled(
            word,
            log.skip(from),
        ) == word + 1,
        word == 0x3fff_ffff_ffff_ffff ==> progress is Overflow && protocol::settled(
            word,
            log.skip(from),
        ) == word,
        word > 0x3fff_ffff_ffff_ffff ==> progress is Yield && protocol::settled(
            word,
            log.skip(from),
        ) == word,
{
    let earlier = log.take(from);
    reader_stands(earlier);
    assert(earlier.last() == log[from - 1]);
    assert(earlier[from - 2] == log[from - 2]);
    assert(earlier.drop_last().push(earlier.last()) =~= earlier);
    phase::run_push(Phase::ReadStart, earlier.drop_last(), earlier.last());
    resumed_read_so_far(word, log, from);
    word::encode_decode(word);
    if log.len() > from {
        resumed_up_to_the_last(word, log, from);
        resumed_read_so_far(word, log.drop_last(), from);
        assert(log.last() == log[log.len() - 1]);
    }
}

/// What a resumed write that had not announced itself has seen and done, if nobody
/// interferes.
proof fn resumed_claim_so_far(word: u64, log: Seq<Event>, from: int)
    requires
        1 <= from <= log.len(),
        phase::run(Phase::WriteStart, log.take(from)) matches Some(Phase::Claiming(wait))
            && wait.spins == 190 && !(wait.turn is Pause),
        protocol::undisturbed(word, log.skip(from)),
        protocol::no_spurious_failure(log.skip(from)),
    ensures
        match phase::run(Phase::WriteStart, log) {
            Some(Phase::Claiming(wait)) => {
                &&& protocol::settled(word, log.skip(from)) == word
                &&& wait.turn is Pause ==> wait.seen == word
                &&& wait.turn is Decide && wait.seen != word ==> wait.spins == 190
                &&& (word / 0x4000_0000_0000_0000) % 2 == 0 ==> {
                    &&& wait.spins <= 191
                    &&& wait.turn is Pause ==> wait.spins == 190
                }
            },
            Some(Phase::Draining(wait)) => {
                &&& (word / 0x4000_0000_0000_0000) % 2 == 0
                &&& protocol::settled(word, log.skip(from)) == word + 0x4000_0000_0000_0000
                &&& wait.seen == word + 0x4000_0000_0000_0000
                &&& !(wait.turn is Pause)
                &&& word == 0 ==> wait.turn is Decide && wait.spins == 0
            },
            Some(Phase::Writing) => word == 0 && protocol::settled(word, log.skip(from))
                == 0xc000_0000_0000_0000,
            Some(Phase::Released) => true,
            Some(_) => false,
            None => true,
        },
    decreases log.len(),
{
    if log.len() == from {
        assert(log.take(from) =~= log);
        assert(log.skip(from) =~= Seq::empty());
    } else {
        resumed_up_to_the_last(word, log, from);
        resumed_claim_so_far(word, log.drop_last(), from);
        word::encode_decode(word);
        match phase::run(Phase::WriteStart, log.drop_last()) {
            Some(Phase::Claiming(wait)) => {
                word::encode_decode(wait.seen);
            },
            Some(Phase::Draining(wait)) => {
                word::encode_decode(wait.seen);
            },
            _ => {},
        }
    }
}

/// A write that is resumed before it has announced itself, and that nobody interferes
/// with, comes to what the word says then, whatever it said before. Behind a pending
/// writer it waits again and leaves the word alone. Otherwise it announces itself, also
/// over readers; it has the lock if nobody was inside, and waits again if somebody was.
pub proof fn resumed_write_goes_by_the_word(
    word: u64,
    log: Seq<Event>,
    before: int,
    from: int,
    progress: Progress,
)
    requires
        1 < from <= log.len(),
        spin_rwlock::write_progress(log.take(from), before, Progress::Yield),
        forall|i: int|
            0 <= i < from ==> !(#[trigger] log[i] matches Event::Exchange {
                outcome: Ok(_),
                ..
            }),
        spin_rwlock::write_progress(log, from, progress),
        protocol::undisturbed(word, log.skip(from)),
        protocol::no_spurious_failure(log.skip(from)),
    ensures
        (word / 0x4000_0000_0000_0000) % 2 == 1 ==> progress is Yield && protocol::settled(
            word,
            log.skip(from),
        ) == word,
        (word / 0x4000_0000_0000_0000) % 2 == 0 && word != 0 ==> progress is Yield
            && protocol::settled(word, log.skip(from)) == word + 0x4000_0000_0000_0000,
        word == 0 ==> progress is Acquired && protocol::settled(word, log.skip(from))
            == 0xc000_0000_0000_0000,
{
    let earlier = log.take(from);
    writer_stands(earlier);
    if phase::run(Phase::WriteStart, earlier) matches Some(Phase::Draining(_)) {
        let at = choose|at: int| #[trigger] succeeds_once(earlier, at);
        assert(log[at] == earlier[at]);
    }
    assert(earlier.last() == log[from - 1]);
    assert(earlier.drop_last().push(earlier.last()) =~= earlier);
    phase::run_push(Phase::WriteStart, earlier.drop_last(), earlier.last());
    resumed_claim_so_far(word, log, from);
    word::encode_decode(word);
    if log.len() > from {
        resumed_up_to_the_last(word, log, from);
        resumed_claim_so_far(word, log.drop_last(), from);
        assert(log.last() == log[log.len() - 1]);
    }
}

/// What a resumed write that had announced itself has seen and done, if nobody
/// interferes.
proof fn resumed_drain_so_far(word: u64, log: Seq<Event>, from: int)
    requires
        1 <= from <= log.len(),
        phase::run(Phase::WriteStart, log.take(from)) matches Some(Phase::Draining(wait))
            && wait.spins == 190 && !(wait.turn is Pause),
        protocol::undisturbed(word, log.skip(from)),
        protocol::no_spurious_failure(log.skip(from)),
    ensures
        match phase::run(Phase::WriteStart, log) {
            Some(Phase::Draining(wait)) => {
                &&& protocol::settled(word, log.skip(from)) == word
                &&& wait.turn is Pause ==> wait.seen == word
                &&& wait.turn is Decide && wait.seen != word ==> wait.spins == 190
                &&& word == 0 || word == 0x4000_0000_0000_0000 ==> {
                    &&& wait.spins <= 191
                    &&& wait.turn is Pause ==> wait.spins == 190
                }
            },
            Some(Phase::Writing) => {
                &&& word == 0 || word == 0x4000_0000_0000_0000
                &&& protocol::settled(word, log.skip(from)) == word + 0x8000_0000_0000_0000
            },
            Some(Phase::Released) => true,
            Some(_) => false,
            None => true,
        },
    decreases log.len(),
{
    if log.len() == from {
        assert(log.take(from) =~= log);
        assert(log.skip(from) =~= Seq::empty());
    } else {
        resumed_up_to_the_last(word, log, from);
        resumed_drain_so_far(word, log.drop_last(), from);
        word::encode_decode(word);
        if let Some(Phase::Draining(wait)) = phase::run(Phase::WriteStart, log.drop_last()) {
            word::encode_decode(wait.seen);
        }
    }
}

/// A write that is resumed after it has announced itself, and that nobody interferes
/// with, comes to what the word says then. It has the lock if nobody is inside any more:
/// then the word is the pending bit alone, and the holding bit is added to it. Otherwise
/// it waits again and leaves the word alone.
pub proof fn resumed_announced_write_goes_by_the_word(
    word: u64,
    log: Seq<Event>,
    before: int,
    from: int,
    progress: Progress,
)
    requires
        1 < from <= log.len(),
        spin_rwlock::write_progress(log.take(from), before, Progress::Yield),
        exists|i: int|
            0 <= i < from && (#[trigger] log[i] matches Event::Exchange { outcome: Ok(_), .. }),
        spin_rwlock::write_progress(log, from, progress),
        protocol::undisturbed(word, log.skip(from)),
        protocol::no_spurious_failure(log.skip(from)),
    ensures
        word == 0x4000_0000_0000_0000 ==> progress is Acquired && protocol::settled(
            word,
            log.skip(from),
        ) == 0xc000_0000_0000_0000,
        word != 0 && word != 0x4000_0000_0000_0000 ==> progress is Yield && protocol::settled(
            word,
            log.skip(from),
        ) == word,
{
    let earlier = log.take(from);
    writer_stands(earlier);
    if phase::run(Phase::WriteStart, earlier) matches Some(Phase::Claiming(_)) {
        let at = choose|i: int|
            0 <= i < from && (#[trigger] log[i] matches Event::Exchange { outcome: Ok(_), .. });
        assert(log[at] == earlier[at]);
    }
    assert(earlier.last() == log[from - 1]);
    assert(earlier.drop_last().push(earlier.last()) =~= earlier);
    phase::run_push(Phase::WriteStart, earlier.drop_last(), earlier.last());
    resumed_drain_so_far(word, log, from);
    word::encode_decode(word);
    if log.len() > from {
        resumed_up_to_the_last(word, log, from);
        resumed_drain_so_far(word, log.drop_last(), from);
        assert(log.last() == log[log.len() - 1]);
    }
}

} // verus!
