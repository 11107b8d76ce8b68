//! What holds when any number of acquisitions of one lock interleave.
//!
//! The operations that change a state word happen one after the other. A history
//! lists the operations of all acquisitions in such an order. Nothing is asked of the
//! values that loads and failed exchanges return: they may be out of date. Each
//! acquisition makes the operations of its phase. The functions that operate on a state
//! word ask this of their callers, record each operation, and count the calls that can
//! change the word against the record, so it holds of all that an acquisition does to the
//! word of a lock.

#[allow(unused_imports)]
use crate::phase;
#[allow(unused_imports)]
use crate::phase::Phase;
#[allow(unused_imports)]
use crate::spin_rwlock;
#[allow(unused_imports)]
use crate::spin_rwlock::Progress;
#[allow(unused_imports)]
use crate::state::{Event, MemoryOrder};
#[allow(unused_imports)]
use crate::word;
#[allow(unused_imports)]
use crate::word::{LockWord, READERS_MASK, WRITER_MASK, WRITER_PENDING};
use vstd::prelude::*;

verus! {

/// An operation and the acquisition that made it.
pub struct Stamp {
    pub agent: int,
    pub event: Event,
}

/// The state word, and where every acquisition stands.
pub struct Config {
    pub word: u64,
    pub phases: spec_fn(int) -> Phase,
}

/// The word after `event` happened to `word`.
pub open spec fn effect(word: u64, event: Event) -> u64 {
    match event {
        Event::Load { .. } => word,
        Event::Exchange { new, outcome, .. } => if outcome is Ok {
            new
        } else {
            word
        },
        Event::Sub { amount, .. } => if amount <= word {
            (word - amount) as u64
        } else {
            (word - amount + 0x1_0000_0000_0000_0000) as u64
        },
        Event::And { mask, .. } => word & mask,
        Event::Pause { .. } => word,
    }
}

/// Whether `event` can happen to `word`: an operation that changes the word found it
/// as it says. A load or a failed exchange may have found an older word.
pub open spec fn sees(word: u64, event: Event) -> bool {
    match event {
        Event::Load { .. } => true,
        Event::Exchange { expected, outcome, .. } => outcome is Ok ==> word == expected,
        Event::Sub { previous, .. } => word == previous,
        Event::And { previous, .. } => word == previous,
        Event::Pause { .. } => true,
    }
}

impl Config {
    /// Where the acquisition `agent` stands.
    pub open spec fn phase(self, agent: int) -> Phase {
        (self.phases)(agent)
    }

    /// Nobody has done anything to a new lock, whose word is zero.
    pub open spec fn is_initial(self) -> bool {
        self.word == 0 && forall|a: int| (#[trigger] self.phase(a)).is_start()
    }

    /// Whether the operation of `stamp` can come next.
    pub open spec fn allows(self, stamp: Stamp) -> bool {
        &&& sees(self.word, stamp.event)
        &&& phase::next(self.phase(stamp.agent), stamp.event) is Some
    }

    /// What the operation of `stamp` leads to.
    pub open spec fn step(self, stamp: Stamp) -> Config {
        Config {
            word: effect(self.word, stamp.event),
            phases: |a: int|
                if a == stamp.agent {
                    phase::next(self.phase(a), stamp.event)->0
                } else {
                    self.phase(a)
                },
        }
    }

    /// The acquisitions whose read guard is live.
    pub open spec fn readers(self) -> Set<int> {
        Set::new(|a: int| self.phase(a) is Reading)
    }

    /// The word says who holds the lock and who waits to write, and they do not get in
    /// each other's way.
    pub open spec fn coherent(self) -> bool {
        let w = word::decode(self.word);
        &&& self.readers().finite()
        &&& w.readers == self.readers().len()
        &&& w.pending <==> exists|a: int| (#[trigger] self.phase(a)).is_announced()
        &&& w.holding <==> exists|a: int| #[trigger] self.phase(a) is Writing
        &&& forall|a: int, b: int|
            (#[trigger] self.phase(a)).is_announced() && (#[trigger] self.phase(b)).is_announced()
                ==> a == b
        &&& forall|a: int, b: int|
            #[trigger] self.phase(a) is Writing ==> !(#[trigger] self.phase(b) is Reading)
    }
}

/// What the operations of `history`, made one after the other, lead to.
pub open spec fn after(start: Config, history: Seq<Stamp>) -> Config
    decreases history.len(),
{
    if history.len() == 0 {
        start
    } else {
        after(start, history.drop_last()).step(history.last())
    }
}

/// Whether `history` can happen to a lock.
pub open spec fn possible(start: Config, history: Seq<Stamp>) -> bool
    decreases history.len(),
{
    if history.len() == 0 {
        start.is_initial()
    } else {
        &&& possible(start, history.drop_last())
        &&& after(start, history.drop_last()).allows(history.last())
    }
}

/// A new lock is coherent.
pub proof fn initial_is_coherent(start: Config)
    requires
        start.is_initial(),
    ensures
        start.coherent(),
{
    assert forall|a: int| !(#[trigger] start.phase(a) is Reading) by {
        assert(start.phase(a).is_start());
    }
    assert(start.readers() =~= Set::empty());
    assert forall|a: int| !(#[trigger] start.phase(a)).is_announced() by {
        assert(start.phase(a).is_start());
    }
}

impl Config {
    /// Whether `post` differs from `self` in the phase of `agent` at most, apart from
    /// the word.
    spec fn moves_only(self, post: Config, agent: int) -> bool {
        forall|a: int| a != agent ==> #[trigger] post.phase(a) == self.phase(a)
    }
}

/// An operation that leaves the word alone and neither lets anyone in nor out.
proof fn quiet_step(config: Config, post: Config, agent: int)
    requires
        config.coherent(),
        config.moves_only(post, agent),
        post.word == config.word,
        (post.phase(agent) is Reading) == (config.phase(agent) is Reading),
        (post.phase(agent) is Writing) == (config.phase(agent) is Writing),
        (post.phase(agent) is Draining) == (config.phase(agent) is Draining),
    ensures
        post.coherent(),
{
    assert forall|a: int|
        #![trigger post.phase(a)]
        #![trigger config.phase(a)]
        {
            &&& (post.phase(a) is Reading) == (config.phase(a) is Reading)
            &&& (post.phase(a) is Writing) == (config.phase(a) is Writing)
            &&& (post.phase(a) is Draining) == (config.phase(a) is Draining)
        } by {
        if a != agent {
            assert(post.phase(a) == config.phase(a));
        }
    }
    assert(post.readers() =~= config.readers());
}

/// A reader enters.
proof fn reader_enters(config: Config, post: Config, agent: int)
    requires
        config.coherent(),
        config.moves_only(post, agent),
        word::spec_claim_read(config.word) == word::ReadClaim::Enter(post.word),
        !(config.phase(agent) is Reading),
        !config.phase(agent).is_announced(),
        post.phase(agent) is Reading,
    ensures
        post.coherent(),
{
    let w = word::decode(config.word);
    word::decode_encode(LockWord { readers: w.readers + 1, ..w });
    assert(post.readers() =~= config.readers().insert(agent));
    assert forall|a: int|
        #![trigger post.phase(a)]
        #![trigger config.phase(a)]
        !post.phase(a).is_announced() by {
        assert(!config.phase(a).is_announced());
    }
}

/// A reader leaves.
proof fn reader_leaves(config: Config, post: Config, agent: int)
    requires
        config.coherent(),
        config.moves_only(post, agent),
        post.word == effect(
            config.word,
            Event::Sub { amount: 1, order: MemoryOrder::Release, previous: config.word },
        ),
        config.phase(agent) is Reading,
        post.phase(agent) is Released,
    ensures
        post.coherent(),
{
    assert(config.readers().contains(agent));
    assert(post.readers() =~= config.readers().remove(agent));
    word::leaving_uncounts_a_reader(config.word);
    assert forall|a: int|
        #![trigger post.phase(a)]
        #![trigger config.phase(a)]
        {
            &&& (post.phase(a) is Writing) == (config.phase(a) is Writing)
            &&& (post.phase(a) is Draining) == (config.phase(a) is Draining)
        } by {
        if a != agent {
            assert(post.phase(a) == config.phase(a));
        }
    }
}

/// A writer announces itself, inside or not.
proof fn writer_announced(config: Config, post: Config, agent: int)
    requires
        config.coherent(),
        config.moves_only(post, agent),
        !(config.phase(agent) is Reading),
        !config.phase(agent).is_announced(),
        post.phase(agent).is_announced(),
        post.phase(agent) is Writing ==> config.word == 0 && post.word == WRITER_MASK,
        post.phase(agent) is Draining ==> word::spec_claim_pending(config.word) == Some(post.word),
    ensures
        post.coherent(),
{
    let w = word::decode(config.word);
    word::decode_encode(LockWord { pending: true, ..w });
    assert(post.readers() =~= config.readers());
    assert forall|a: int|
        #![trigger post.phase(a)]
        #![trigger config.phase(a)]
        !config.phase(a).is_announced() && post.phase(a).is_announced() == (a == agent) by {
        if a != agent {
            assert(post.phase(a) == config.phase(a));
        }
    }
    assert(post.phase(agent).is_announced());
    if post.phase(agent) is Writing {
        assert(config.readers().len() == 0);
        assert forall|b: int| !(#[trigger] post.phase(b) is Reading) by {
            assert(!config.readers().contains(b));
        }
    }
}

/// An announced writer enters.
proof fn writer_enters(config: Config, post: Config, agent: int)
    requires
        config.coherent(),
        config.moves_only(post, agent),
        config.phase(agent) is Draining,
        post.phase(agent) is Writing,
        word::spec_claim_holding(config.word) == Some(post.word),
    ensures
        post.coherent(),
{
    let w = word::decode(config.word);
    word::decode_encode(LockWord { holding: true, ..w });
    assert(post.readers() =~= config.readers());
    assert(config.phase(agent).is_announced());
    assert forall|a: int|
        #![trigger post.phase(a)]
        #![trigger config.phase(a)]
        post.phase(a).is_announced() == config.phase(a).is_announced() by {
        if a != agent {
            assert(post.phase(a) == config.phase(a));
        }
    }
    assert(post.phase(agent) is Writing);
    assert forall|b: int| !(#[trigger] post.phase(b) is Reading) by {
        assert(!config.readers().contains(b));
    }
}

/// A writer leaves.
proof fn writer_leaves(config: Config, post: Config, agent: int)
    requires
        config.coherent(),
        config.moves_only(post, agent),
        config.phase(agent) is Writing,
        post.phase(agent) is Released,
        post.word == config.word & !WRITER_MASK,
    ensures
        post.coherent(),
{
    word::clearing_writer_mask(config.word);
    assert(config.phase(agent).is_announced());
    assert(post.readers() =~= config.readers());
    assert forall|a: int| !(#[trigger] post.phase(a)).is_announced() by {
        if a != agent {
            assert(post.phase(a) == config.phase(a));
        }
    }
}

/// No operation that can come next makes a coherent lock incoherent.
pub proof fn step_keeps_coherent(config: Config, stamp: Stamp)
    requires
        config.coherent(),
        config.allows(stamp),
    ensures
        config.step(stamp).coherent(),
{
    let post = config.step(stamp);
    let agent = stamp.agent;
    assert(config.moves_only(post, agent));
    match config.phase(agent) {
        Phase::Reading => reader_leaves(config, post, agent),
        Phase::Writing => writer_leaves(config, post, agent),
        Phase::Draining(_) => match post.phase(agent) {
            Phase::Writing => writer_enters(config, post, agent),
            _ => quiet_step(config, post, agent),
        },
        _ => match post.phase(agent) {
            Phase::Reading => reader_enters(config, post, agent),
            Phase::Writing => writer_announced(config, post, agent),
            Phase::Draining(_) => writer_announced(config, post, agent),
            _ => quiet_step(config, post, agent),
        },
    }
}

/// Whatever happens to a lock, its word says who holds it and who waits to write: it
/// counts the live read guards, its pending bit tells of a writer that is waiting or
/// inside, and its holding bit of a writer that is inside.
pub proof fn word_tells_who_is_inside(start: Config, history: Seq<Stamp>)
    requires
        possible(start, history),
    ensures
        after(start, history).coherent(),
    decreases history.len(),
{
    if history.len() == 0 {
        initial_is_coherent(start);
    } else {
        word_tells_who_is_inside(start, history.drop_last());
        step_keeps_coherent(after(start, history.drop_last()), history.last());
    }
}

/// A writer that is inside is alone: no other acquisition holds a read guard, holds
/// the write guard or has even announced itself.
pub proof fn writer_excludes_everyone(start: Config, history: Seq<Stamp>, writer: int, other: int)
    requires
        possible(start, history),
        after(start, history).phase(writer) is Writing,
        other != writer,
    ensures
        !(after(start, history).phase(other) is Reading),
        !after(start, history).phase(other).is_announced(),
{
    word_tells_who_is_inside(start, history);
}

/// At most one writer has announced itself at a time, be it inside or not.
pub proof fn one_writer_is_announced(start: Config, history: Seq<Stamp>, a: int, b: int)
    requires
        possible(start, history),
        after(start, history).phase(a).is_announced(),
        after(start, history).phase(b).is_announced(),
    ensures
        a == b,
{
    word_tells_who_is_inside(start, history);
}

/// The holding bit is never set without the pending bit, nor while readers are
/// counted.
pub proof fn holding_implies_pending(start: Config, history: Seq<Stamp>)
    requires
        possible(start, history),
        word::decode(after(start, history).word).holding,
    ensures
        after(start, history).word == WRITER_MASK,
{
    let config = after(start, history);
    word_tells_who_is_inside(start, history);
    let writer = choose|a: int| #[trigger] config.phase(a) is Writing;
    assert(config.phase(writer).is_announced());
    assert(config.readers() =~= Set::empty());
    word::encode_decode(config.word);
}

/// Nobody holds the lock or waits to write exactly when the word is zero, as in a new
/// lock.
pub proof fn idle_lock_is_as_new(start: Config, history: Seq<Stamp>)
    requires
        possible(start, history),
    ensures
        after(start, history).word == 0 <==> forall|a: int|
            {
                &&& !((#[trigger] after(start, history).phase(a)) is Reading)
                &&& !after(start, history).phase(a).is_announced()
            },
{
    let config = after(start, history);
    word_tells_who_is_inside(start, history);
    word::encode_decode(config.word);
    if config.word == 0 {
        assert forall|a: int|
            {
                &&& !((#[trigger] config.phase(a)) is Reading)
                &&& !config.phase(a).is_announced()
            } by {
            assert(!config.readers().contains(a));
        }
    } else if forall|a: int|
        {
            &&& !((#[trigger] config.phase(a)) is Reading)
            &&& !config.phase(a).is_announced()
        } {
        assert(config.readers() =~= Set::empty());
        assert(forall|a: int| !(#[trigger] config.phase(a) is Writing));
    }
}

/// Readers do not keep readers out: while no writer has announced itself, a reader
/// that sees the word enters, unless the count of readers is at its limit.
pub proof fn readers_let_readers_in(start: Config, history: Seq<Stamp>)
    requires
        possible(start, history),
        forall|a: int| !(#[trigger] after(start, history).phase(a)).is_announced(),
    ensures
        after(start, history).readers().len() < READERS_MASK ==> word::spec_claim_read(
            after(start, history).word,
        ) is Enter,
        after(start, history).readers().len() >= READERS_MASK ==> word::spec_claim_read(
            after(start, history).word,
        ) is Full,
{
    let config = after(start, history);
    word_tells_who_is_inside(start, history);
    assert(forall|a: int| config.phase(a) is Writing ==> config.phase(a).is_announced());
    word::encode_decode(config.word);
}

/// Once a writer has announced itself no reader enters, whatever word it has seen.
pub proof fn no_reader_enters_past_a_writer(
    start: Config,
    history: Seq<Stamp>,
    writer: int,
    stamp: Stamp,
)
    requires
        possible(start, history),
        after(start, history).phase(writer).is_announced(),
        after(start, history).allows(stamp),
    ensures
        !(after(start, history).step(stamp).phase(stamp.agent) is Reading),
{
    word_tells_who_is_inside(start, history);
}

/// Between a writer's announcement and its leaving nobody else gets in and nobody else
/// announces itself, whether waiting or in a single attempt.
pub proof fn nobody_overtakes_a_writer(
    start: Config,
    history: Seq<Stamp>,
    writer: int,
    stamp: Stamp,
)
    requires
        possible(start, history),
        after(start, history).phase(writer).is_announced(),
        after(start, history).allows(stamp),
        stamp.agent != writer,
    ensures
        !(after(start, history).step(stamp).phase(stamp.agent) is Reading),
        !after(start, history).step(stamp).phase(stamp.agent).is_announced(),
{
    let config = after(start, history);
    word_tells_who_is_inside(start, history);
    step_keeps_coherent(config, stamp);
    assert(config.step(stamp).phase(writer).is_announced());
    no_reader_enters_past_a_writer(start, history, writer, stamp);
}

/// The checks that the releases and the waiting writer rest on never fail: a reader
/// that leaves is counted and no writer is inside; a writer that leaves finds both
/// writer bits and no reader; a waiting writer finds its announcement in place.
pub proof fn word_is_as_its_holders_expect(start: Config, history: Seq<Stamp>, agent: int)
    requires
        possible(start, history),
    ensures
        after(start, history).phase(agent) is Reading ==> word::decode(
            after(start, history).word,
        ).readers > 0 && !word::decode(after(start, history).word).holding,
        after(start, history).phase(agent) is Writing ==> after(start, history).word
            == WRITER_MASK,
        after(start, history).phase(agent) is Draining ==> word::decode(
            after(start, history).word,
        ).pending && !word::decode(after(start, history).word).holding,
{
    let config = after(start, history);
    word_tells_who_is_inside(start, history);
    if config.phase(agent) is Reading {
        assert(config.readers().contains(agent));
    }
    if config.phase(agent) is Writing {
        holding_implies_pending(start, history);
    }
    if config.phase(agent) is Draining && word::decode(config.word).holding {
        let writer = choose|a: int| #[trigger] config.phase(a) is Writing;
        assert(config.phase(writer).is_announced());
        assert(config.phase(agent).is_announced());
    }
}

/// A guard leaves by one operation, and makes none after it. A writer's takes the word
/// from both writer bits to zero, and a reader's takes one off the word.
pub proof fn leaving_changes_the_word_once(start: Config, history: Seq<Stamp>, stamp: Stamp)
    requires
        possible(start, history),
        after(start, history).allows(stamp),
    ensures
        after(start, history).phase(stamp.agent) is Writing ==> {
            &&& after(start, history).word == 0xc000_0000_0000_0000
            &&& after(start, history).step(stamp).word == 0
            &&& after(start, history).step(stamp).phase(stamp.agent) is Released
        },
        after(start, history).phase(stamp.agent) is Reading ==> {
            &&& after(start, history).step(stamp).word == after(start, history).word - 1
            &&& after(start, history).step(stamp).phase(stamp.agent) is Released
        },
        !(after(start, history).phase(stamp.agent) is Released),
{
    word_is_as_its_holders_expect(start, history, stamp.agent);
    assert(WRITER_MASK & !WRITER_MASK == 0) by (bit_vector);
}

/// There is no deadlock. Whoever is inside can leave. When nobody is inside, an
/// announced writer that looks at the word may enter; and when no writer has announced
/// itself either, a reader may enter and a writer may announce itself.
pub proof fn somebody_can_go_on(start: Config, history: Seq<Stamp>)
    requires
        possible(start, history),
    ensures
        ({
            let config = after(start, history);
            let word = config.word;
            &&& forall|a: int|
                #[trigger] config.phase(a) is Reading ==> config.allows(
                    Stamp {
                        agent: a,
                        event: Event::Sub {
                            amount: 1,
                            order: MemoryOrder::Release,
                            previous: word,
                        },
                    },
                )
            &&& forall|a: int|
                #[trigger] config.phase(a) is Writing ==> config.allows(
                    Stamp {
                        agent: a,
                        event: Event::And {
                            mask: !WRITER_MASK,
                            order: MemoryOrder::Release,
                            previous: word,
                        },
                    },
                )
            &&& (forall|a: int|
                !(#[trigger] config.phase(a) is Reading) && !(config.phase(a) is Writing)) ==> {
                if exists|a: int| #[trigger] config.phase(a) is Draining {
                    word::spec_claim_holding(word) == Some(WRITER_MASK)
                } else {
                    &&& word::spec_claim_read(word) is Enter
                    &&& word::spec_claim_pending(word) == Some(WRITER_PENDING)
                }
            }
        }),
{
    let config = after(start, history);
    word_tells_who_is_inside(start, history);
    word::encode_decode(config.word);
    if forall|a: int|
        !(#[trigger] config.phase(a) is Reading) && !(config.phase(a) is Writing) {
        assert(config.readers() =~= Set::empty());
        if exists|a: int| #[trigger] config.phase(a) is Draining {
            let writer = choose|a: int| #[trigger] config.phase(a) is Draining;
            assert(config.phase(writer).is_announced());
        }
    }
}

/// A reader that enters and leaves restores the word.
pub proof fn leaving_undoes_entering(word: u64, order: MemoryOrder, previous: u64)
    requires
        word::spec_claim_read(word) is Enter,
    ensures
        effect(
            word::spec_claim_read(word)->Enter_0,
            Event::Sub { amount: 1, order, previous },
        ) == word,
{
    word::encode_decode(word);
}

/// What came before something that can happen can happen too.
pub proof fn prefix_is_possible(start: Config, history: Seq<Stamp>, n: int)
    requires
        possible(start, history),
        0 <= n <= history.len(),
    ensures
        possible(start, history.take(n)),
    decreases history.len(),
{
    if n == history.len() {
        assert(history.take(n) =~= history);
    } else {
        prefix_is_possible(start, history.drop_last(), n);
        assert(history.drop_last().take(n) =~= history.take(n));
    }
}

/// A longer prefix is one step ahead.
pub proof fn prefix_step(start: Config, history: Seq<Stamp>, n: int)
    requires
        possible(start, history),
        0 <= n < history.len(),
    ensures
        after(start, history.take(n + 1)) == after(start, history.take(n)).step(history[n]),
        after(start, history.take(n)).allows(history[n]),
{
    prefix_is_possible(start, history, n + 1);
    assert(history.take(n + 1).drop_last() =~= history.take(n));
    assert(history.take(n + 1).last() == history[n]);
}

/// From the moment a writer announces itself until it leaves, the readers inside can
/// only become fewer: a read that begins meanwhile does not succeed.
pub proof fn readers_only_leave_while_a_writer_waits(
    start: Config,
    history: Seq<Stamp>,
    writer: int,
    from: int,
    to: int,
)
    requires
        possible(start, history),
        0 <= from <= to <= history.len(),
        forall|k: int|
            from <= k <= to ==> (#[trigger] after(start, history.take(k))).phase(
                writer,
            ).is_announced(),
    ensures
        after(start, history.take(to)).readers().subset_of(
            after(start, history.take(from)).readers(),
        ),
    decreases to - from,
{
    if from < to {
        let last = to - 1;
        readers_only_leave_while_a_writer_waits(start, history, writer, from, last);
        prefix_is_possible(start, history, last);
        prefix_step(start, history, last);
        let stamp = history[last];
        let before = after(start, history.take(last));
        assert(before.phase(writer).is_announced());
        no_reader_enters_past_a_writer(start, history.take(last), writer, stamp);
        assert forall|a: int| #[trigger] before.step(stamp).readers().contains(a) implies before
            .readers().contains(a) by {
            assert(a != stamp.agent);
        }
    }
}

/// The operations of one acquisition in `history`.
pub open spec fn log_of(history: Seq<Stamp>, agent: int) -> Seq<Event>
    decreases history.len(),
{
    if history.len() == 0 {
        Seq::empty()
    } else {
        let earlier = log_of(history.drop_last(), agent);
        if history.last().agent == agent {
            earlier.push(history.last().event)
        } else {
            earlier
        }
    }
}

/// An acquisition stands where its own operations have led it. These are the
/// operations that its guard records.
pub proof fn phase_follows_from_own_operations(start: Config, history: Seq<Stamp>, agent: int)
    requires
        possible(start, history),
    ensures
        phase::run(start.phase(agent), log_of(history, agent)) == Some(
            after(start, history).phase(agent),
        ),
    decreases history.len(),
{
    if history.len() > 0 {
        phase_follows_from_own_operations(start, history.drop_last(), agent);
        if history.last().agent == agent {
            phase::run_push(
                start.phase(agent),
                log_of(history.drop_last(), agent),
                history.last().event,
            );
        }
    }
}

/// Guards exclude each other: where the operations of one acquisition have led it to a
/// live write guard, those of no other have led it to a live guard.
pub proof fn write_guard_is_the_only_guard(
    start: Config,
    history: Seq<Stamp>,
    writer: int,
    other: int,
)
    requires
        possible(start, history),
        other != writer,
        phase::run(start.phase(writer), log_of(history, writer)) == Some(Phase::Writing),
    ensures
        phase::run(start.phase(other), log_of(history, other)) != Some(Phase::Reading),
        phase::run(start.phase(other), log_of(history, other)) != Some(Phase::Writing),
{
    phase_follows_from_own_operations(start, history, writer);
    phase_follows_from_own_operations(start, history, other);
    writer_excludes_everyone(start, history, writer, other);
}

/// Whether `event` found `word` as it is: nothing it returned is out of date, and an
/// exchange that is strong does not fail for no reason.
pub open spec fn fresh(word: u64, event: Event) -> bool {
    match event {
        Event::Load { value, .. } => value == word,
        Event::Exchange { expected, strong, outcome, .. } => match outcome {
            Ok(_) => word == expected,
            Err(found) => found == word && (strong ==> found != expected),
        },
        Event::Sub { previous, .. } => previous == word,
        Event::And { previous, .. } => previous == word,
        Event::Pause { .. } => true,
    }
}

/// The word after the operations of `log`.
pub open spec fn settled(word: u64, log: Seq<Event>) -> u64
    decreases log.len(),
{
    if log.len() == 0 {
        word
    } else {
        effect(settled(word, log.drop_last()), log.last())
    }
}

/// Whether the operations of `log` were made on `word` with no other thread
/// interfering.
pub open spec fn undisturbed(word: u64, log: Seq<Event>) -> bool
    decreases log.len(),
{
    log.len() > 0 ==> undisturbed(word, log.drop_last()) && fresh(
        settled(word, log.drop_last()),
        log.last(),
    )
}

/// How many operations a single attempt has made in each of its phases.
pub(crate) proof fn attempt_lengths(log: Seq<Event>)
    ensures
        match phase::run(Phase::TryReadStart, log) {
            Some(Phase::TryReadStart) => log.len() == 0,
            Some(Phase::TryReadSeen(_)) => log.len() == 1,
            Some(Phase::Reading) => log.len() == 2,
            Some(Phase::Refused) => log.len() == 2,
            Some(Phase::Released) => log.len() == 3,
            Some(_) => false,
            None => true,
        },
        match phase::run(Phase::TryWriteStart, log) {
            Some(Phase::TryWriteStart) => log.len() == 0,
            Some(Phase::Writing) => log.len() == 1,
            Some(Phase::Refused) => log.len() == 1,
            Some(Phase::Released) => log.len() == 2,
            Some(_) => false,
            None => true,
        },
    decreases log.len(),
{
    if log.len() > 0 {
        attempt_lengths(log.drop_last());
    }
}

/// An undisturbed single attempt to read succeeds exactly when no writer has announced
/// itself and the count of readers is below its limit. It then leaves one reader more,
/// and otherwise the word as it was.
pub proof fn undisturbed_try_read(
    start: Config,
    history: Seq<Stamp>,
    log: Seq<Event>,
    acquired: bool,
)
    requires
        possible(start, history),
        spin_rwlock::try_read_outcome(log, acquired),
        undisturbed(after(start, history).word, log),
    ensures
        acquired <==> {
            &&& forall|a: int| !(#[trigger] after(start, history).phase(a)).is_announced()
            &&& after(start, history).readers().len() < READERS_MASK
        },
        settled(after(start, history).word, log) == (if acquired {
            after(start, history).word + 1
        } else {
            after(start, history).word as int
        }),
{
    let config = after(start, history);
    word_tells_who_is_inside(start, history);
    word::encode_decode(config.word);
    attempt_lengths(log);
    reveal_with_fuel(phase::run, 3);
    reveal_with_fuel(settled, 3);
    reveal_with_fuel(undisturbed, 3);
    if forall|a: int| !(#[trigger] config.phase(a)).is_announced() {
        readers_let_readers_in(start, history);
    } else {
        let writer = choose|a: int| (#[trigger] config.phase(a)).is_announced();
        assert(config.phase(writer).is_announced());
    }
}

/// An undisturbed single attempt to write succeeds exactly when nobody holds the lock
/// and no writer has announced itself. It then leaves both writer bits, and otherwise
/// the word as it was.
pub proof fn undisturbed_try_write(
    start: Config,
    history: Seq<Stamp>,
    log: Seq<Event>,
    acquired: bool,
)
    requires
        possible(start, history),
        spin_rwlock::try_write_outcome(log, acquired),
        undisturbed(after(start, history).word, log),
    ensures
        acquired <==> forall|a: int|
            {
                &&& !((#[trigger] after(start, history).phase(a)) is Reading)
                &&& !after(start, history).phase(a).is_announced()
            },
        settled(after(start, history).word, log) == (if acquired {
            WRITER_MASK
        } else {
            after(start, history).word
        }),
{
    idle_lock_is_as_new(start, history);
    attempt_lengths(log);
    reveal_with_fuel(phase::run, 2);
    reveal_with_fuel(settled, 2);
    reveal_with_fuel(undisturbed, 2);
}

/// Whether `event` is an exchange that failed though it found what it expected.
pub open spec fn spurious(event: Event) -> bool {
    event matches Event::Exchange { expected, outcome: Err(found), .. } && found == expected
}

/// Whether no exchange of `log` failed though it found what it expected.
pub open spec fn no_spurious_failure(log: Seq<Event>) -> bool {
    forall|i: int| 0 <= i < log.len() ==> !spurious(#[trigger] log[i])
}

/// What holds of all operations holds of the last one and of those before it.
proof fn no_spurious_failure_up_to_the_last(log: Seq<Event>)
    requires
        log.len() > 0,
        no_spurious_failure(log),
    ensures
        no_spurious_failure(log.drop_last()),
        !spurious(log.last()),
{
    assert(log.last() == log[log.len() - 1]);
    assert forall|i: int| 0 <= i < log.drop_last().len() implies !spurious(
        #[trigger] log.drop_last()[i],
    ) by {
        assert(log.drop_last()[i] == log[i]);
    }
}

/// What an undisturbed blocking read has seen and done.
proof fn undisturbed_read_so_far(word: u64, log: Seq<Event>)
    requires
        undisturbed(word, log),
        no_spurious_failure(log),
    ensures
        match phase::run(Phase::ReadStart, log) {
            Some(Phase::ReadStart) => log.len() == 0,
            Some(Phase::ReadWait(wait)) => {
                &&& log.len() > 0
                &&& wait.seen == word
                &&& !(wait.turn is Pause)
                &&& settled(word, log) == word
                &&& log.last() is Pause ==> word::spec_claim_read(word) is Blocked
                &&& wait.turn is Reload ==> word::spec_claim_read(word) is Blocked
            },
            Some(Phase::Reading) => word::spec_claim_read(word) == word::ReadClaim::Enter(
                settled(word, log),
            ),
            Some(Phase::Released) => true,
            Some(_) => false,
            None => true,
        },
    decreases log.len(),
{
    if log.len() > 0 {
        no_spurious_failure_up_to_the_last(log);
        undisturbed_read_so_far(word, log.drop_last());
    }
}

/// What an undisturbed blocking read comes to, by the word.
proof fn undisturbed_read_ends(word: u64, log: Seq<Event>, progress: Progress)
    requires
        spin_rwlock::read_progress(log, 0, progress),
        undisturbed(word, log),
        no_spurious_failure(log),
    ensures
        match word::spec_claim_read(word) {
            word::ReadClaim::Blocked => progress is Yield && settled(word, log) == word,
            word::ReadClaim::Full => progress is Overflow && settled(word, log) == word,
            word::ReadClaim::Enter(_) => progress is Acquired && settled(word, log) == word + 1,
        },
{
    undisturbed_read_so_far(word, log);
    word::encode_decode(word);
}

/// An undisturbed blocking read acquires the lock exactly when no writer has announced
/// itself and the count of readers is below its limit, and then leaves one reader more.
/// At the limit it stops, and behind a writer it waits until the thread is to be
/// yielded; both leave the word alone.
pub proof fn undisturbed_read(
    start: Config,
    history: Seq<Stamp>,
    log: Seq<Event>,
    progress: Progress,
)
    requires
        possible(start, history),
        spin_rwlock::read_progress(log, 0, progress),
        undisturbed(after(start, history).word, log),
        no_spurious_failure(log),
    ensures
        progress == (if exists|a: int| (#[trigger] after(start, history).phase(a)).is_announced() {
            Progress::Yield
        } else if after(start, history).readers().len() >= READERS_MASK {
            Progress::Overflow
        } else {
            Progress::Acquired
        }),
        settled(after(start, history).word, log) == (if progress is Acquired {
            after(start, history).word + 1
        } else {
            after(start, history).word as int
        }),
{
    let config = after(start, history);
    word_tells_who_is_inside(start, history);
    undisturbed_read_ends(config.word, log, progress);
    if exists|a: int| (#[trigger] config.phase(a)).is_announced() {
        assert(word::spec_claim_read(config.word) is Blocked);
    } else {
        readers_let_readers_in(start, history);
    }
}

/// What an undisturbed blocking write has seen and done.
proof fn undisturbed_write_so_far(word: u64, log: Seq<Event>)
    requires
        undisturbed(word, log),
        no_spurious_failure(log),
    ensures
        match phase::run(Phase::WriteStart, log) {
            Some(Phase::WriteStart) => log.len() == 0,
            Some(Phase::Claiming(wait)) => {
                &&& log.len() > 0
                &&& wait.seen == word
                &&& !(wait.turn is Pause)
                &&& settled(word, log) == word
                &&& log.last() is Pause ==> word::spec_claim_pending(word) is None
            },
            Some(Phase::Draining(wait)) => {
                &&& log.len() > 0
                &&& word::spec_claim_pending(word) == Some(wait.seen)
                &&& settled(word, log) == wait.seen
                &&& !(wait.turn is Pause)
                &&& log.last() is Pause ==> word::spec_claim_holding(wait.seen) is None
            },
            Some(Phase::Writing) => {
                &&& word::spec_claim_pending(word) matches Some(announced)
                &&& word::spec_claim_holding(announced) == Some(settled(word, log))
            },
            Some(Phase::Released) => true,
            Some(_) => false,
            None => true,
        },
    decreases log.len(),
{
    if log.len() > 0 {
        no_spurious_failure_up_to_the_last(log);
        undisturbed_write_so_far(word, log.drop_last());
    }
}

/// What an undisturbed blocking write comes to, by the word.
proof fn undisturbed_write_ends(word: u64, log: Seq<Event>, progress: Progress)
    requires
        spin_rwlock::write_progress(log, 0, progress),
        undisturbed(word, log),
        no_spurious_failure(log),
    ensures
        match word::spec_claim_pending(word) {
            None => progress is Yield && settled(word, log) == word,
            Some(announced) => match word::spec_claim_holding(announced) {
                None => progress is Yield && settled(word, log) == announced,
                Some(held) => progress is Acquired && settled(word, log) == held,
            },
        },
{
    undisturbed_write_so_far(word, log);
}

/// An undisturbed blocking write acquires the lock exactly when nobody holds it and no
/// writer has announced itself, and then leaves both writer bits. Otherwise it waits
/// until the thread is to be yielded: behind a writer it leaves the word alone, and
/// behind readers it leaves them counted and its announcement beside them.
pub proof fn undisturbed_write(
    start: Config,
    history: Seq<Stamp>,
    log: Seq<Event>,
    progress: Progress,
)
    requires
        possible(start, history),
        spin_rwlock::write_progress(log, 0, progress),
        undisturbed(after(start, history).word, log),
        no_spurious_failure(log),
    ensures
        progress == (if forall|a: int|
            {
                &&& !((#[trigger] after(start, history).phase(a)) is Reading)
                &&& !after(start, history).phase(a).is_announced()
            } {
            Progress::Acquired
        } else {
            Progress::Yield
        }),
        settled(after(start, history).word, log) == (if progress is Acquired {
            WRITER_MASK as int
        } else if exists|a: int| (#[trigger] after(start, history).phase(a)).is_announced() {
            after(start, history).word as int
        } else {
            WRITER_PENDING + after(start, history).readers().len()
        }),
{
    let config = after(start, history);
    word_tells_who_is_inside(start, history);
    idle_lock_is_as_new(start, history);
    undisturbed_write_ends(config.word, log, progress);
    word::encode_decode(config.word);
    let w = word::decode(config.word);
    word::decode_encode(LockWord { pending: true, ..w });
    assert(w.holding ==> w.pending) by {
        if w.holding {
            let writer = choose|a: int| #[trigger] config.phase(a) is Writing;
            assert(config.phase(writer).is_announced());
        }
    }
}

/// The changes that the operations of `log` made to the word, each from one word to
/// another.
pub open spec fn changes(log: Seq<Event>) -> Seq<(u64, u64)>
    decreases log.len(),
{
    if log.len() == 0 {
        Seq::empty()
    } else {
        let earlier = changes(log.drop_last());
        match log.last() {
            Event::Exchange { expected, new, outcome: Ok(_), .. } => earlier.push((expected, new)),
            Event::Sub { previous, .. } => earlier.push(
                (previous, effect(previous, log.last())),
            ),
            Event::And { previous, .. } => earlier.push(
                (previous, effect(previous, log.last())),
            ),
            _ => earlier,
        }
    }
}

/// The changes that an acquisition has made in each phase, until it leaves.
proof fn changes_by_phase(start: Phase, log: Seq<Event>)
    requires
        start.is_start(),
    ensures
        match phase::run(start, log) {
            Some(Phase::Reading) => {
                let made = changes(log);
                &&& start is ReadStart || start is TryReadStart
                &&& made.len() == 1
                &&& word::spec_claim_read(made[0].0) == word::ReadClaim::Enter(made[0].1)
            },
            Some(Phase::Draining(_)) => {
                let made = changes(log);
                &&& start is WriteStart
                &&& made.len() == 1
                &&& word::spec_claim_pending(made[0].0) == Some(made[0].1)
            },
            Some(Phase::Writing) => {
                let made = changes(log);
                ||| {
                    &&& start is WriteStart
                    &&& made.len() == 2
                    &&& word::spec_claim_pending(made[0].0) == Some(made[0].1)
                    &&& word::spec_claim_holding(made[1].0) == Some(made[1].1)
                }
                ||| {
                    &&& start is TryWriteStart
                    &&& made.len() == 1
                    &&& made[0] == (0u64, WRITER_MASK)
                }
            },
            Some(Phase::Released) => true,
            Some(Phase::ReadWait(_)) => start is ReadStart && changes(log).len() == 0,
            Some(Phase::Claiming(_)) => start is WriteStart && changes(log).len() == 0,
            Some(Phase::TryReadSeen(_)) => start is TryReadStart && changes(log).len() == 0,
            Some(Phase::Refused) => changes(log).len() == 0,
            Some(other) => other == start && changes(log).len() == 0,
            None => true,
        },
    decreases log.len(),
{
    if log.len() > 0 {
        changes_by_phase(start, log.drop_last());
    }
}

/// A read that succeeds, whether it waited or not, has changed the word once: it has
/// counted itself, below the limit, in a word without a writer, and nothing else.
pub proof fn read_changes_the_word_once(start: Phase, log: Seq<Event>)
    requires
        start.is_start(),
        phase::run(start, log) == Some(Phase::Reading),
    ensures
        changes(log).len() == 1,
        changes(log)[0].1 == changes(log)[0].0 + 1,
        word::decode(changes(log)[0].0).no_writer(),
        word::decode(changes(log)[0].0).readers < READERS_MASK,
{
    changes_by_phase(start, log);
    word::encode_decode(changes(log)[0].0);
}

/// A single attempt to write that succeeds has changed the word once, from zero to both
/// writer bits.
pub proof fn try_write_changes_the_word_once(log: Seq<Event>)
    requires
        phase::run(Phase::TryWriteStart, log) == Some(Phase::Writing),
    ensures
        changes(log) == seq![(0u64, WRITER_MASK)],
{
    changes_by_phase(Phase::TryWriteStart, log);
}

/// An attempt that fails, to read or to write, has not changed the word.
pub proof fn failed_attempt_changes_nothing(log: Seq<Event>)
    requires
        spin_rwlock::try_read_outcome(log, false) || spin_rwlock::try_write_outcome(log, false),
    ensures
        changes(log).len() == 0,
{
    changes_by_phase(Phase::TryReadStart, log);
    changes_by_phase(Phase::TryWriteStart, log);
}

/// A writer enters by turning the pending bit, alone in the word, into both writer
/// bits.
pub proof fn writer_enters_a_drained_lock(start: Config, history: Seq<Stamp>, stamp: Stamp)
    requires
        possible(start, history),
        after(start, history).allows(stamp),
        after(start, history).phase(stamp.agent) is Draining,
        after(start, history).step(stamp).phase(stamp.agent) is Writing,
    ensures
        after(start, history).word == WRITER_PENDING,
        after(start, history).step(stamp).word == WRITER_MASK,
{
    word_is_as_its_holders_expect(start, history, stamp.agent);
    word::encode_decode(after(start, history).word);
}

/// A blocking write that succeeds has changed the word twice: it has added its
/// announcement to a word without one, and then turned the pending bit, alone in the
/// word, into both writer bits.
pub proof fn write_changes_the_word_twice(start: Config, history: Seq<Stamp>, writer: int)
    requires
        possible(start, history),
        start.phase(writer) is WriteStart,
        after(start, history).phase(writer) is Writing,
    ensures
        changes(log_of(history, writer)).len() == 2,
        !word::decode(changes(log_of(history, writer))[0].0).pending,
        changes(log_of(history, writer))[0].1 == changes(log_of(history, writer))[0].0
            + WRITER_PENDING,
        changes(log_of(history, writer))[1] == (WRITER_PENDING, WRITER_MASK),
    decreases history.len(),
{
    phase_follows_from_own_operations(start, history, writer);
    changes_by_phase(start.phase(writer), log_of(history, writer));
    let made = changes(log_of(history, writer));
    word::encode_decode(made[0].0);
    if history.last().agent == writer {
        phase_follows_from_own_operations(start, history.drop_last(), writer);
        changes_by_phase(start.phase(writer), log_of(history.drop_last(), writer));
        writer_enters_a_drained_lock(start, history.drop_last(), history.last());
        assert(log_of(history, writer).drop_last() =~= log_of(history.drop_last(), writer));
    } else {
        write_changes_the_word_twice(start, history.drop_last(), writer);
    }
}

/// As long as a writer drains, the word is its announcement beside the readers that
/// are inside.
pub proof fn word_while_a_writer_drains(start: Config, history: Seq<Stamp>, writer: int)
    requires
        possible(start, history),
        after(start, history).phase(writer) is Draining,
    ensures
        after(start, history).word == WRITER_PENDING + after(start, history).readers().len(),
{
    word_tells_who_is_inside(start, history);
    word_is_as_its_holders_expect(start, history, writer);
    word::encode_decode(after(start, history).word);
}

/// A writer that drains does not enter while a reader is inside, whatever word it has
/// seen.
pub proof fn writer_waits_for_readers(
    start: Config,
    history: Seq<Stamp>,
    writer: int,
    reader: int,
    stamp: Stamp,
)
    requires
        possible(start, history),
        after(start, history).phase(writer) is Draining,
        after(start, history).phase(reader) is Reading,
        after(start, history).allows(stamp),
    ensures
        after(start, history).step(stamp).phase(writer) is Draining,
{
    if stamp.agent == writer && after(start, history).step(stamp).phase(writer) is Writing {
        writer_enters_a_drained_lock(start, history, stamp);
        word_is_as_its_holders_expect(start, history, reader);
    }
}

/// As long as a writer drains and no reader leaves, the word stays as it is.
pub proof fn word_stays_while_readers_stay(
    start: Config,
    history: Seq<Stamp>,
    writer: int,
    from: int,
    to: int,
)
    requires
        possible(start, history),
        0 <= from <= to <= history.len(),
        forall|k: int|
            from <= k <= to ==> (#[trigger] after(start, history.take(k))).phase(
                writer,
            ) is Draining,
        after(start, history.take(from)).readers().subset_of(
            after(start, history.take(to)).readers(),
        ),
    ensures
        after(start, history.take(to)).word == after(start, history.take(from)).word,
{
    assert forall|k: int| from <= k <= to implies (#[trigger] after(
        start,
        history.take(k),
    )).phase(writer).is_announced() by {
        assert(after(start, history.take(k)).phase(writer) is Draining);
    }
    readers_only_leave_while_a_writer_waits(start, history, writer, from, to);
    prefix_is_possible(start, history, from);
    prefix_is_possible(start, history, to);
    assert(after(start, history.take(from)).phase(writer) is Draining);
    assert(after(start, history.take(to)).phase(writer) is Draining);
    word_while_a_writer_drains(start, history.take(from), writer);
    word_while_a_writer_drains(start, history.take(to), writer);
    assert(after(start, history.take(from)).readers() =~= after(
        start,
        history.take(to),
    ).readers());
}

} // verus!
