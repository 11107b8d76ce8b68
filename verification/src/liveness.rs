//! What happens in the end, when every thread gets its turns.
//!
//! An execution goes on for ever; at each moment one operation happens, or none. That
//! a thread gets its turns, that what it sees of the word is up to date for a few
//! operations in a row again and again, and that guards are dropped is what the laws
//! below rest on.

#[allow(unused_imports)]
use crate::phase;
#[allow(unused_imports)]
use crate::phase::{Phase, Turn, Wait};
#[allow(unused_imports)]
use crate::protocol;
#[allow(unused_imports)]
use crate::protocol::{Config, Stamp};
#[allow(unused_imports)]
use crate::sections;
#[allow(unused_imports)]
use crate::state::Event;
#[allow(unused_imports)]
use crate::word;
#[allow(unused_imports)]
use crate::word::WRITER_PENDING;
use vstd::prelude::*;

verus! {

/// An execution: where it starts, and what happens at each moment.
pub struct Execution {
    pub start: Config,
    pub steps: spec_fn(nat) -> Option<Stamp>,
}

impl Execution {
    /// What has become of the lock at moment `n`.
    pub open spec fn at(self, n: nat) -> Config
        decreases n,
    {
        if n == 0 {
            self.start
        } else {
            let earlier = self.at((n - 1) as nat);
            match (self.steps)((n - 1) as nat) {
                Some(stamp) => earlier.step(stamp),
                None => earlier,
            }
        }
    }

    /// Whether the operation of moment `n` is one of `agent`.
    pub open spec fn acts(self, agent: int, n: nat) -> bool {
        (self.steps)(n) matches Some(stamp) && stamp.agent == agent
    }

    /// Whether what happens at moment `n` can happen.
    pub open spec fn allowed(self, n: nat) -> bool {
        (self.steps)(n) matches Some(stamp) ==> self.at(n).allows(stamp)
    }

    /// Whether the execution can happen to a lock.
    pub open spec fn possible(self) -> bool {
        self.start.is_initial() && forall|n: nat| #[trigger] self.allowed(n)
    }

    /// Whether `agent` gets a turn again and again, as long as it waits.
    pub open spec fn gets_turns(self, agent: int) -> bool {
        forall|n: nat|
            waits(#[trigger] self.at(n).phase(agent)) ==> exists|m: nat|
                n <= m && #[trigger] self.acts(agent, m)
    }

    /// Whether the operation of moment `n`, if it is one of `agent`, finds the word as
    /// it is and does not fail for no reason.
    pub open spec fn sees_clearly(self, agent: int, n: nat) -> bool {
        self.acts(agent, n) ==> {
            let event = (self.steps)(n)->0.event;
            protocol::fresh(self.at(n).word, event) && !protocol::spurious(event)
        }
    }

    /// Whether the first operation of `agent` from moment `n` on is that of moment
    /// `turn`.
    pub open spec fn is_next_turn(self, agent: int, n: nat, turn: nat) -> bool {
        &&& n <= turn
        &&& self.acts(agent, turn)
        &&& forall|k: nat| n <= k < turn ==> !(#[trigger] self.acts(agent, k))
    }

    /// Whether `agent` sees clearly in its next `count` operations from moment `n` on,
    /// as far as it makes them.
    pub open spec fn sees_clearly_for(self, agent: int, n: nat, count: nat) -> bool
        decreases count,
    {
        count > 0 ==> forall|turn: nat| #[trigger]
            self.is_next_turn(agent, n, turn) ==> {
                &&& self.sees_clearly(agent, turn)
                &&& self.sees_clearly_for(agent, turn + 1, (count - 1) as nat)
            }
    }

    /// Whether `agent`, as long as it waits, sees clearly again and again, for four
    /// operations in a row. It may see what is out of date, and fail for no reason, as
    /// often as it likes besides.
    pub open spec fn sees_clearly_again_and_again(self, agent: int) -> bool {
        forall|n: nat|
            waits(#[trigger] self.at(n).phase(agent)) ==> exists|m: nat|
                n <= m && #[trigger] self.sees_clearly_for(agent, m, 4)
    }
}

/// Whether an acquisition in `phase` waits. One that has found the count of readers at
/// its limit does not: it has stopped.
pub open spec fn waits(phase: Phase) -> bool {
    match phase {
        Phase::ReadWait(wait) => !stopped(phase),
        Phase::Claiming(_) => true,
        Phase::Draining(_) => true,
        _ => false,
    }
}

/// Whether an acquisition in `phase` has stopped at the limit of the count of readers.
pub open spec fn stopped(phase: Phase) -> bool {
    phase matches Phase::ReadWait(wait) && wait.turn is Decide && word::spec_claim_read(
        wait.seen,
    ) is Full
}

/// At every moment the word says who is inside.
proof fn always_coherent(execution: Execution, n: nat)
    requires
        execution.possible(),
    ensures
        execution.at(n).coherent(),
    decreases n,
{
    if n == 0 {
        protocol::initial_is_coherent(execution.start);
    } else {
        let earlier = (n - 1) as nat;
        always_coherent(execution, earlier);
        assert(execution.allowed(earlier));
        if let Some(stamp) = (execution.steps)(earlier) {
            protocol::step_keeps_coherent(execution.at(earlier), stamp);
        }
    }
}

/// An acquisition stays where it is until its next operation. Returns the moment of
/// that operation.
proof fn next_turn(execution: Execution, agent: int, n: nat, m: nat) -> (turn: nat)
    requires
        n <= m,
        execution.acts(agent, m),
    ensures
        n <= turn <= m,
        execution.acts(agent, turn),
        execution.is_next_turn(agent, n, turn),
        execution.at(turn).phase(agent) == execution.at(n).phase(agent),
    decreases m - n,
{
    if execution.acts(agent, n) {
        n
    } else {
        assert(execution.at(n + 1).phase(agent) == execution.at(n).phase(agent));
        let turn = next_turn(execution, agent, n + 1, m);
        assert forall|k: nat| n <= k < turn implies !(#[trigger] execution.acts(agent, k)) by {
            assert(k == n || n + 1 <= k);
        }
        turn
    }
}

/// How many operations a wait needs at most, once the word stays as it is.
spec fn rank(wait: Wait, word: u64) -> nat {
    match wait.turn {
        Turn::Decide => if wait.seen == word {
            1
        } else {
            3
        },
        Turn::Reload => 2,
        Turn::Pause => if wait.seen == word {
            2
        } else {
            4
        },
    }
}

/// The wait of an acquisition that waits.
spec fn wait_of(phase: Phase) -> Wait {
    match phase {
        Phase::ReadWait(wait) => wait,
        Phase::Claiming(wait) => wait,
        Phase::Draining(wait) => wait,
        _ => Wait::begin(0),
    }
}

/// Whether an acquisition in `phase` gets through when it sees `word`.
spec fn passes(phase: Phase, word: u64) -> bool {
    match phase {
        Phase::ReadWait(_) => word::spec_claim_read(word) is Enter,
        Phase::Claiming(_) => word::spec_claim_pending(word) is Some,
        Phase::Draining(_) => word::spec_claim_holding(word) is Some,
        _ => false,
    }
}

/// Whether `later` is what an acquisition in `phase` waits for.
spec fn got_through(phase: Phase, later: Phase) -> bool {
    match phase {
        Phase::ReadWait(_) => later is Reading,
        Phase::Claiming(_) => later is Draining,
        Phase::Draining(_) => later is Writing,
        _ => false,
    }
}

/// Whether two phases are the same kind of wait.
spec fn same_kind(a: Phase, b: Phase) -> bool {
    match a {
        Phase::ReadWait(_) => b is ReadWait,
        Phase::Claiming(_) => b is Claiming,
        Phase::Draining(_) => b is Draining,
        _ => false,
    }
}

/// One operation that finds the word as it is brings a wait nearer to its end.
proof fn operation_brings_nearer(phase: Phase, word: u64, event: Event)
    requires
        waits(phase),
        passes(phase, word),
        phase::next(phase, event) is Some,
        protocol::sees(word, event),
        protocol::fresh(word, event),
        !protocol::spurious(event),
    ensures
        ({
            let later = phase::next(phase, event)->0;
            got_through(phase, later) || (same_kind(phase, later) && rank(wait_of(later), word)
                < rank(wait_of(phase), word))
        }),
{
}

/// A wait ends once the word stays one that lets it through, and the acquisition sees
/// clearly for as many operations as it still needs, unless it stops at the limit.
/// Returns a moment at which it has ended.
proof fn wait_ends(
    execution: Execution,
    agent: int,
    n: nat,
    word: u64,
    count: nat,
) -> (m: nat)
    requires
        execution.possible(),
        execution.gets_turns(agent),
        execution.sees_clearly_for(agent, n, count),
        forall|k: nat| n <= k ==> (#[trigger] execution.at(k)).word == word,
        forall|k: nat| n <= k ==> !stopped(#[trigger] execution.at(k).phase(agent)),
        waits(execution.at(n).phase(agent)),
        passes(execution.at(n).phase(agent), word),
        rank(wait_of(execution.at(n).phase(agent)), word) <= count,
    ensures
        n <= m,
        got_through(execution.at(n).phase(agent), execution.at(m).phase(agent)),
    decreases count,
{
    let phase = execution.at(n).phase(agent);
    let some = choose|m: nat| n <= m && #[trigger] execution.acts(agent, m);
    let turn = next_turn(execution, agent, n, some);
    let event = (execution.steps)(turn)->0.event;
    assert(execution.allowed(turn));
    assert(execution.sees_clearly(agent, turn));
    assert(execution.at(turn).word == word);
    operation_brings_nearer(phase, word, event);
    let after = turn + 1;
    assert(execution.at(after).phase(agent) == phase::next(phase, event)->0);
    if got_through(phase, execution.at(after).phase(agent)) {
        after
    } else {
        assert(!stopped(execution.at(after).phase(agent)));
        wait_ends(execution, agent, after, word, (count - 1) as nat)
    }
}

/// What no longer holds of an agent does not come back.
proof fn stays_gone(holds: spec_fn(int, nat) -> bool, agent: int, n: nat, m: nat)
    requires
        n <= m,
        forall|a: int, k: nat| n <= k && #[trigger] holds(a, k + 1) ==> holds(a, k),
        !holds(agent, n),
    ensures
        !holds(agent, m),
    decreases m - n,
{
    if n < m {
        stays_gone(holds, agent, n, (m - 1) as nat);
        assert(!holds(agent, ((m - 1) as nat) + 1));
    }
}

/// Where what holds of each of finitely many agents ends, and does not come back, there
/// is a moment at which it has ended for all. Returns such a moment.
proof fn all_gone(holds: spec_fn(int, nat) -> bool, agents: Set<int>, n: nat) -> (m: nat)
    requires
        agents.finite(),
        forall|a: int, k: nat| n <= k && #[trigger] holds(a, k + 1) ==> holds(a, k),
        forall|a: int| #[trigger]
            agents.contains(a) ==> exists|k: nat| n <= k && !(#[trigger] holds(a, k)),
    ensures
        n <= m,
        forall|a: int| agents.contains(a) ==> !(#[trigger] holds(a, m)),
    decreases agents.len(),
{
    if agents.len() == 0 {
        assert(agents =~= Set::empty());
        n
    } else {
        let agent = agents.choose();
        assert(agents.contains(agent));
        let rest = agents.remove(agent);
        assert forall|a: int| #[trigger] rest.contains(a) implies exists|k: nat|
            n <= k && !(#[trigger] holds(a, k)) by {
            assert(agents.contains(a));
        }
        let others = all_gone(holds, rest, n);
        let own = choose|k: nat| n <= k && !(#[trigger] holds(agent, k));
        let m = if others <= own {
            own
        } else {
            others
        };
        assert forall|a: int| agents.contains(a) implies !(#[trigger] holds(a, m)) by {
            if a == agent {
                stays_gone(holds, agent, own, m);
            } else {
                assert(rest.contains(a));
                stays_gone(holds, a, others, m);
            }
        }
        m
    }
}

/// A writer that drains goes on draining until it enters.
proof fn drains_until_it_enters(execution: Execution, writer: int, n: nat, m: nat)
    requires
        execution.possible(),
        n <= m,
        execution.at(n).phase(writer) is Draining,
        forall|k: nat| n <= k <= m ==> !(#[trigger] execution.at(k).phase(writer) is Writing),
    ensures
        execution.at(m).phase(writer) is Draining,
    decreases m - n,
{
    if n < m {
        let last = (m - 1) as nat;
        drains_until_it_enters(execution, writer, n, last);
        assert(execution.allowed(last));
        assert(!(execution.at(m).phase(writer) is Writing));
    }
}

/// No reader enters while a writer drains.
proof fn no_reader_enters_while_draining(
    execution: Execution,
    writer: int,
    reader: int,
    n: nat,
)
    requires
        execution.possible(),
        execution.at(n).phase(writer) is Draining,
        execution.at(n + 1).phase(reader) is Reading,
    ensures
        execution.at(n).phase(reader) is Reading,
{
    always_coherent(execution, n);
    assert(execution.allowed(n));
    assert(execution.at(n).phase(writer).is_announced());
}

/// A pending writer gets the lock in the end: where it gets its turns and sees the word
/// as it is again and again, and every reader that was inside when it waited leaves, it
/// enters. It waits for no one else.
pub proof fn pending_writer_enters_in_the_end(execution: Execution, writer: int, n: nat)
    requires
        execution.possible(),
        execution.at(n).phase(writer) is Draining,
        execution.gets_turns(writer),
        execution.sees_clearly_again_and_again(writer),
        forall|a: int|
            execution.at(n).readers().contains(a) ==> exists|m: nat|
                n <= m && !(#[trigger] execution.at(m).phase(a) is Reading),
    ensures
        exists|m: nat| n <= m && #[trigger] execution.at(m).phase(writer) is Writing,
{
    if forall|m: nat| n <= m ==> !(#[trigger] execution.at(m).phase(writer) is Writing) {
        assert forall|m: nat| n <= m implies #[trigger] execution.at(m).phase(
            writer,
        ) is Draining by {
            drains_until_it_enters(execution, writer, n, m);
        }
        // The readers leave, and no other enters.
        let reads = |a: int, k: nat| execution.at(k).phase(a) is Reading;
        assert forall|a: int, k: nat| n <= k && #[trigger] reads(a, k + 1) implies reads(
            a,
            k,
        ) by {
            assert(execution.at(k).phase(writer) is Draining);
            no_reader_enters_while_draining(execution, writer, a, k);
        }
        always_coherent(execution, n);
        let readers = execution.at(n).readers();
        assert forall|a: int| #[trigger] readers.contains(a) implies exists|k: nat|
            n <= k && !(#[trigger] reads(a, k)) by {
            let k = choose|m: nat| n <= m && !(#[trigger] execution.at(m).phase(a) is Reading);
            assert(!reads(a, k));
        }
        let drained = all_gone(reads, readers, n);
        assert(execution.at(drained).phase(writer) is Draining);
        let from = choose|m: nat|
            drained <= m && #[trigger] execution.sees_clearly_for(writer, m, 4);
        // From then on the word is the announcement, and nothing else.
        assert forall|k: nat| from <= k implies (#[trigger] execution.at(k)).word
            == WRITER_PENDING by {
            let config = execution.at(k);
            always_coherent(execution, k);
            assert(config.phase(writer) is Draining);
            assert(config.phase(writer).is_announced());
            assert forall|a: int| !(#[trigger] config.phase(a) is Reading) by {
                if !readers.contains(a) {
                    assert(!reads(a, n));
                    stays_gone(reads, a, n, k);
                } else {
                    assert(!reads(a, drained));
                    stays_gone(reads, a, drained, k);
                }
                assert(!reads(a, k));
            }
            assert(config.readers() =~= Set::empty());
            word::encode_decode(config.word);
        }
        assert forall|k: nat| from <= k implies !stopped(
            #[trigger] execution.at(k).phase(writer),
        ) by {
            assert(execution.at(k).phase(writer) is Draining);
        }
        assert(execution.at(from).phase(writer) is Draining);
        let m = wait_ends(execution, writer, from, WRITER_PENDING, 4);
        assert(execution.at(m).phase(writer) is Writing);
    }
}

/// The word of a wait that does not get through stays as it is, if no other acquisition
/// changes it.
proof fn word_stays_for_a_wait(execution: Execution, agent: int, n: nat, m: nat)
    requires
        execution.possible(),
        n <= m,
        waits(execution.at(n).phase(agent)),
        forall|k: nat|
            n <= k && !execution.acts(agent, k) ==> (#[trigger] execution.at(k + 1)).word
                == execution.at(k).word,
        forall|k: nat|
            n <= k ==> !got_through(
                execution.at(n).phase(agent),
                #[trigger] execution.at(k).phase(agent),
            ),
        forall|k: nat|
            n <= k && execution.at(n).phase(agent) is ReadWait ==> !stopped(
                #[trigger] execution.at(k).phase(agent),
            ),
    ensures
        execution.at(m).word == execution.at(n).word,
        waits(execution.at(m).phase(agent)),
        same_kind(execution.at(n).phase(agent), execution.at(m).phase(agent)),
    decreases m - n,
{
    if n < m {
        let last = (m - 1) as nat;
        word_stays_for_a_wait(execution, agent, n, last);
        assert(execution.allowed(last));
        assert(!got_through(execution.at(n).phase(agent), execution.at(m).phase(agent)));
        assert(execution.at(n).phase(agent) is ReadWait ==> !stopped(
            execution.at(m).phase(agent),
        ));
        assert(execution.at(last + 1).word == execution.at(last).word);
    }
}

/// A reader that waits gets in among other readers: where no writer bit is set, the
/// count is below its limit and no other acquisition changes the word any more, it
/// enters in the end, though none of the others ever leaves. Only one that still comes
/// upon an older word with the count at its limit stops there.
pub proof fn waiting_reader_enters_among_readers(execution: Execution, reader: int, n: nat)
    requires
        execution.possible(),
        execution.at(n).phase(reader) is ReadWait,
        execution.at(n).word < 0x3fff_ffff_ffff_ffff,
        execution.gets_turns(reader),
        execution.sees_clearly_again_and_again(reader),
        forall|k: nat|
            n <= k && !execution.acts(reader, k) ==> (#[trigger] execution.at(k + 1)).word
                == execution.at(k).word,
    ensures
        exists|m: nat|
            n <= m && ((#[trigger] execution.at(m).phase(reader)) is Reading || (
            execution.at(m).phase(reader) matches Phase::ReadWait(wait) && wait.seen
                == 0x3fff_ffff_ffff_ffff)),
{
    if forall|m: nat|
        n <= m ==> !(#[trigger] execution.at(m).phase(reader) is Reading) && !stopped(
            execution.at(m).phase(reader),
        ) {
        let word = execution.at(n).word;
        assert(waits(execution.at(n).phase(reader)));
        assert forall|k: nat| n <= k implies {
            &&& (#[trigger] execution.at(k)).word == word
            &&& execution.at(k).phase(reader) is ReadWait
        } by {
            word_stays_for_a_wait(execution, reader, n, k);
        }
        let from = choose|m: nat| n <= m && #[trigger] execution.sees_clearly_for(reader, m, 4);
        assert(!stopped(execution.at(from).phase(reader)));
        let m = wait_ends(execution, reader, from, word, 4);
        assert(!(execution.at(m).phase(reader) is Reading));
    } else {
        let m = choose|m: nat|
            n <= m && (#[trigger] execution.at(m).phase(reader) is Reading || stopped(
                execution.at(m).phase(reader),
            ));
        assert(execution.at(m).phase(reader) is Reading || stopped(execution.at(m).phase(reader)));
    }
}

/// A writer that has come to drain announced itself by adding the pending bit to the
/// word, if no other acquisition changed it. Returns the moment at which it had.
proof fn announces_over_the_word(execution: Execution, writer: int, n: nat, m: nat) -> (at: nat)
    requires
        execution.possible(),
        n <= m,
        execution.at(n).phase(writer) is Claiming,
        execution.at(m).phase(writer) is Draining,
        forall|k: nat|
            n <= k && !execution.acts(writer, k) ==> (#[trigger] execution.at(k + 1)).word
                == execution.at(k).word,
    ensures
        n <= at,
        execution.at(at).phase(writer) is Draining,
        execution.at(at).word == execution.at(n).word + WRITER_PENDING,
    decreases m - n,
{
    assert(execution.allowed(n));
    assert(execution.acts(writer, n) || execution.at(n + 1).word == execution.at(n).word);
    word::encode_decode(execution.at(n).word);
    if execution.at(n + 1).phase(writer) is Draining {
        n + 1
    } else {
        announces_over_the_word(execution, writer, n + 1, m)
    }
}

/// A writer that waits announces itself over readers: where the pending bit is clear and
/// no other acquisition changes the word any more, it announces itself in the end, though
/// no reader ever leaves.
pub proof fn waiting_writer_announces_itself(execution: Execution, writer: int, n: nat)
    requires
        execution.possible(),
        execution.at(n).phase(writer) is Claiming,
        (execution.at(n).word / 0x4000_0000_0000_0000) % 2 == 0,
        execution.gets_turns(writer),
        execution.sees_clearly_again_and_again(writer),
        forall|k: nat|
            n <= k && !execution.acts(writer, k) ==> (#[trigger] execution.at(k + 1)).word
                == execution.at(k).word,
    ensures
        exists|m: nat|
            n <= m && #[trigger] execution.at(m).phase(writer) is Draining && execution.at(m).word
                == execution.at(n).word + 0x4000_0000_0000_0000,
{
    let word = execution.at(n).word;
    if forall|m: nat| n <= m ==> !(#[trigger] execution.at(m).phase(writer) is Draining) {
        assert forall|k: nat| n <= k implies {
            &&& (#[trigger] execution.at(k)).word == word
            &&& execution.at(k).phase(writer) is Claiming
        } by {
            word_stays_for_a_wait(execution, writer, n, k);
        }
        let from = choose|m: nat| n <= m && #[trigger] execution.sees_clearly_for(writer, m, 4);
        assert(execution.at(from).phase(writer) is Claiming);
        let m = wait_ends(execution, writer, from, word, 4);
        assert(!(execution.at(m).phase(writer) is Draining));
    }
    let m = choose|m: nat| n <= m && #[trigger] execution.at(m).phase(writer) is Draining;
    let at = announces_over_the_word(execution, writer, n, m);
    assert(execution.at(at).phase(writer) is Draining);
}

/// Whether `agent` gets its guard at moment `n`.
pub open spec fn enters(execution: Execution, agent: int, n: nat) -> bool {
    &&& !sections::inside(execution.at(n).phase(agent))
    &&& sections::inside(execution.at(n + 1).phase(agent))
}

/// One that waits goes on waiting as long as it does not enter and does not stop.
proof fn waits_until_it_enters(execution: Execution, agent: int, n: nat, m: nat)
    requires
        execution.possible(),
        n <= m,
        waits(execution.at(n).phase(agent)),
        forall|k: nat| n <= k ==> !(#[trigger] enters(execution, agent, k)),
        forall|k: nat| n <= k ==> !stopped(#[trigger] execution.at(k).phase(agent)),
    ensures
        waits(execution.at(m).phase(agent)),
    decreases m - n,
{
    if n < m {
        let last = (m - 1) as nat;
        waits_until_it_enters(execution, agent, n, last);
        assert(execution.allowed(last));
        assert(!enters(execution, agent, last));
        assert(!stopped(execution.at(m).phase(agent)));
    }
}

/// The acquisitions inside are finitely many.
proof fn finitely_many_inside(config: Config)
    requires
        config.coherent(),
    ensures
        Set::new(|a: int| sections::inside(config.phase(a))).finite(),
{
    let all = Set::new(|a: int| sections::inside(config.phase(a)));
    if exists|a: int| #[trigger] config.phase(a) is Writing {
        let writer = choose|a: int| #[trigger] config.phase(a) is Writing;
        assert forall|a: int| all.contains(a) == (a == writer) by {
            assert(config.phase(writer).is_announced());
            if config.phase(a) is Writing {
                assert(config.phase(a).is_announced());
            }
        }
        assert(all =~= Set::empty().insert(writer));
    } else {
        assert(all =~= config.readers());
    }
}

/// There is no deadlock: where every acquisition gets its turns and sees the word as it
/// is again and again, and every guard is dropped, somebody enters in the end whenever
/// somebody waits, unless the one who waits stops at the limit of the count of readers.
pub proof fn somebody_enters_in_the_end(execution: Execution, waiter: int, n: nat)
    requires
        execution.possible(),
        waits(execution.at(n).phase(waiter)),
        forall|a: int| #[trigger] execution.gets_turns(a),
        forall|a: int| #[trigger] execution.sees_clearly_again_and_again(a),
        forall|a: int, k: nat|
            sections::inside(#[trigger] execution.at(k).phase(a)) ==> exists|m: nat|
                k <= m && !sections::inside(#[trigger] execution.at(m).phase(a)),
    ensures
        (exists|a: int, m: nat| n <= m && #[trigger] enters(execution, a, m)) || (exists|m: nat|
            n <= m && stopped(#[trigger] execution.at(m).phase(waiter))),
{
    if (forall|a: int, m: nat| n <= m ==> !(#[trigger] enters(execution, a, m))) && (forall|
        m: nat,
    |
        n <= m ==> !stopped(#[trigger] execution.at(m).phase(waiter))) {
        // Whoever is inside leaves, and nobody enters.
        let holds = |a: int, k: nat| sections::inside(execution.at(k).phase(a));
        assert forall|a: int, k: nat| n <= k && #[trigger] holds(a, k + 1) implies holds(
            a,
            k,
        ) by {
            assert(!enters(execution, a, k));
        }
        always_coherent(execution, n);
        finitely_many_inside(execution.at(n));
        let holders = Set::new(|a: int| sections::inside(execution.at(n).phase(a)));
        assert forall|a: int| #[trigger] holders.contains(a) implies exists|k: nat|
            n <= k && !(#[trigger] holds(a, k)) by {
            assert(sections::inside(execution.at(n).phase(a)));
            let k = choose|m: nat|
                n <= m && !sections::inside(#[trigger] execution.at(m).phase(a));
            assert(!holds(a, k));
        }
        let empty = all_gone(holds, holders, n);
        assert forall|a: int, k: nat| empty <= k implies !sections::inside(
            #[trigger] execution.at(k).phase(a),
        ) by {
            if holders.contains(a) {
                assert(!holds(a, empty));
                stays_gone(holds, a, empty, k);
            } else {
                assert(!holds(a, n));
                stays_gone(holds, a, n, k);
            }
            assert(!holds(a, k));
        }
        // No writer drains any more: it would enter.
        assert forall|a: int, k: nat| empty <= k implies !(#[trigger] execution.at(k).phase(
            a,
        ) is Draining) by {
            if execution.at(k).phase(a) is Draining {
                assert(execution.gets_turns(a));
                assert(execution.sees_clearly_again_and_again(a));
                assert forall|r: int| execution.at(k).readers().contains(r) implies exists|m: nat|
                    k <= m && !(#[trigger] execution.at(m).phase(r) is Reading) by {
                    assert(!sections::inside(execution.at(k).phase(r)));
                }
                pending_writer_enters_in_the_end(execution, a, k);
                let m = choose|m: nat| k <= m && #[trigger] execution.at(m).phase(a) is Writing;
                assert(!sections::inside(execution.at(m).phase(a)));
            }
        }
        // So the lock is free, and the waiter gets through.
        assert forall|k: nat| empty <= k implies (#[trigger] execution.at(k)).word == 0 by {
            let config = execution.at(k);
            always_coherent(execution, k);
            assert forall|a: int| !(#[trigger] config.phase(a) is Reading) by {
                assert(!sections::inside(execution.at(k).phase(a)));
            }
            assert forall|a: int| !(#[trigger] config.phase(a)).is_announced() by {
                assert(!sections::inside(execution.at(k).phase(a)));
                assert(!(execution.at(k).phase(a) is Draining));
            }
            assert(forall|a: int| !(#[trigger] config.phase(a) is Writing));
            assert(config.readers() =~= Set::empty());
            word::encode_decode(config.word);
        }
        assert(execution.sees_clearly_again_and_again(waiter));
        waits_until_it_enters(execution, waiter, n, empty);
        let from = choose|m: nat|
            empty <= m && #[trigger] execution.sees_clearly_for(waiter, m, 4);
        assert(execution.gets_turns(waiter));
        waits_until_it_enters(execution, waiter, n, from);
        assert(!(execution.at(from).phase(waiter) is Draining));
        let m = wait_ends(execution, waiter, from, 0, 4);
        assert(!sections::inside(execution.at(m).phase(waiter)));
        assert(!(execution.at(m).phase(waiter) is Draining));
        assert(false);
    }
}

/// An acquisition that is no single attempt never stands where one stands.
proof fn no_single_attempt(execution: Execution, agent: int, n: nat)
    requires
        execution.possible(),
        !(execution.start.phase(agent) is TryReadStart),
        !(execution.start.phase(agent) is TryWriteStart),
    ensures
        !(execution.at(n).phase(agent) is TryReadStart),
        !(execution.at(n).phase(agent) is TryReadSeen),
        !(execution.at(n).phase(agent) is TryWriteStart),
    decreases n,
{
    if n == 0 {
        assert(execution.start.phase(agent).is_start());
    } else {
        no_single_attempt(execution, agent, (n - 1) as nat);
        assert(execution.allowed((n - 1) as nat));
    }
}

/// There is no deadlock among calls that wait: where all acquisitions are blocking
/// reads and writes, each gets its turns and sees the word as it is again and again, and
/// every guard is dropped, some call that waits returns with a guard in the end
/// whenever there is one that waits, unless that one stops at the limit of the count of
/// readers.
pub proof fn some_waiting_call_returns(execution: Execution, waiter: int, n: nat)
    requires
        execution.possible(),
        forall|a: int|
            (#[trigger] execution.start.phase(a)) is ReadStart || execution.start.phase(
                a,
            ) is WriteStart,
        waits(execution.at(n).phase(waiter)),
        forall|a: int| #[trigger] execution.gets_turns(a),
        forall|a: int| #[trigger] execution.sees_clearly_again_and_again(a),
        forall|a: int, k: nat|
            sections::inside(#[trigger] execution.at(k).phase(a)) ==> exists|m: nat|
                k <= m && !sections::inside(#[trigger] execution.at(m).phase(a)),
    ensures
        (exists|a: int, m: nat|
            n <= m && waits(execution.at(m).phase(a)) && #[trigger] enters(execution, a, m)) || (
        exists|m: nat| n <= m && stopped(#[trigger] execution.at(m).phase(waiter))),
{
    somebody_enters_in_the_end(execution, waiter, n);
    if exists|a: int, m: nat| n <= m && #[trigger] enters(execution, a, m) {
        let (a, m) = choose|a: int, m: nat| n <= m && #[trigger] enters(execution, a, m);
        assert(execution.start.phase(a) is ReadStart || execution.start.phase(a) is WriteStart);
        no_single_attempt(execution, a, m);
        assert(execution.allowed(m));
        assert(waits(execution.at(m).phase(a)));
        assert(enters(execution, a, m));
    }
}

} // verus!
