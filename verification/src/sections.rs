//! What the lock does for the data it protects.
//!
//! A section is the stretch of a history in which one acquisition holds its guard.

#[allow(unused_imports)]
use crate::phase;
#[allow(unused_imports)]
use crate::phase::Phase;
#[allow(unused_imports)]
use crate::protocol;
#[allow(unused_imports)]
use crate::protocol::{Config, Stamp};
#[allow(unused_imports)]
use crate::state::Event;
use vstd::prelude::*;

verus! {

/// Whether the data that a lock protects was changed under the write lock only.
/// `data[k]` is the data at the moment of operation `k`; the last entry is the data
/// now.
pub open spec fn written_under_lock<T>(start: Config, history: Seq<Stamp>, data: Seq<T>) -> bool {
    &&& data.len() == history.len() + 1
    &&& forall|k: int|
        0 <= k < history.len() && #[trigger] data[k] != data[k + 1] ==> exists|a: int|
            #[trigger] protocol::after(start, history.take(k + 1)).phase(a) is Writing
}

/// The data stands still while no writer is inside.
pub proof fn data_stands_still_without_a_writer<T>(
    start: Config,
    history: Seq<Stamp>,
    data: Seq<T>,
    from: int,
    to: int,
)
    requires
        written_under_lock(start, history, data),
        0 <= from <= to <= history.len(),
        forall|k: int, a: int|
            from < k <= to ==> !(#[trigger] protocol::after(start, history.take(k)).phase(
                a,
            ) is Writing),
    ensures
        data[from] == data[to],
    decreases to - from,
{
    if from < to {
        data_stands_still_without_a_writer(start, history, data, from, to - 1);
        assert(data[to - 1] == data[to - 1 + 1]);
    }
}

/// The data stands still while a read guard is live.
pub proof fn data_stands_still_for_a_reader<T>(
    start: Config,
    history: Seq<Stamp>,
    data: Seq<T>,
    reader: int,
    from: int,
    to: int,
)
    requires
        protocol::possible(start, history),
        written_under_lock(start, history, data),
        0 <= from <= to <= history.len(),
        forall|k: int|
            from < k <= to ==> (#[trigger] protocol::after(start, history.take(k))).phase(
                reader,
            ) is Reading,
    ensures
        data[from] == data[to],
{
    assert forall|k: int, a: int| from < k <= to implies !(#[trigger] protocol::after(
        start,
        history.take(k),
    ).phase(a) is Writing) by {
        protocol::prefix_is_possible(start, history, k);
        protocol::word_tells_who_is_inside(start, history.take(k));
        assert(protocol::after(start, history.take(k)).phase(reader) is Reading);
    }
    data_stands_still_without_a_writer(start, history, data, from, to);
}

/// A reader finds the data as the last writer left it. Where a writer leaves with
/// operation `left`, and no other writer is inside between that and operation
/// `entered`, with which the reader enters, the reader finds at any later moment `to`
/// what the writer left, as long as its guard is live.
pub proof fn read_gives_back_the_last_write<T>(
    start: Config,
    history: Seq<Stamp>,
    data: Seq<T>,
    reader: int,
    left: int,
    entered: int,
    to: int,
)
    requires
        protocol::possible(start, history),
        written_under_lock(start, history, data),
        0 <= left <= entered <= to <= history.len(),
        forall|k: int, a: int|
            left < k <= entered ==> !(#[trigger] protocol::after(start, history.take(k)).phase(
                a,
            ) is Writing),
        forall|k: int|
            entered < k <= to ==> (#[trigger] protocol::after(start, history.take(k))).phase(
                reader,
            ) is Reading,
    ensures
        data[to] == data[left],
{
    data_stands_still_without_a_writer(start, history, data, left, entered);
    data_stands_still_for_a_reader(start, history, data, reader, entered, to);
}

/// While a writer is inside, nobody else changes the data: every change is its own.
/// `author[k]` made the change between `data[k]` and `data[k + 1]`.
pub proof fn writer_alone_changes_the_data<T>(
    start: Config,
    history: Seq<Stamp>,
    data: Seq<T>,
    author: Seq<int>,
    writer: int,
    from: int,
    to: int,
)
    requires
        protocol::possible(start, history),
        0 <= from <= to <= history.len(),
        data.len() == history.len() + 1,
        author.len() == history.len(),
        forall|k: int|
            0 <= k < history.len() && #[trigger] data[k] != data[k + 1] ==> protocol::after(
                start,
                history.take(k + 1),
            ).phase(author[k]) is Writing,
        forall|k: int|
            from < k <= to ==> (#[trigger] protocol::after(start, history.take(k))).phase(
                writer,
            ) is Writing,
    ensures
        forall|k: int| from <= k < to && #[trigger] data[k] != data[k + 1] ==> author[k] == writer,
{
    assert forall|k: int| from <= k < to && #[trigger] data[k] != data[k + 1] implies author[k]
        == writer by {
        protocol::prefix_is_possible(start, history, k + 1);
        let config = protocol::after(start, history.take(k + 1));
        assert(config.phase(writer).is_announced());
        assert(config.phase(author[k]).is_announced());
        protocol::one_writer_is_announced(start, history.take(k + 1), writer, author[k]);
    }
}

/// Whether a guard is live in `phase`.
pub open spec fn inside(phase: Phase) -> bool {
    phase is Reading || phase is Writing
}

/// Whether `agent` gets its guard with operation `i`.
pub open spec fn enters(start: Config, history: Seq<Stamp>, agent: int, i: int) -> bool {
    &&& 0 <= i < history.len()
    &&& history[i].agent == agent
    &&& !inside(protocol::after(start, history.take(i)).phase(agent))
    &&& inside(protocol::after(start, history.take(i + 1)).phase(agent))
}

/// Whether `agent` gives its guard up with operation `i`.
pub open spec fn leaves(start: Config, history: Seq<Stamp>, agent: int, i: int) -> bool {
    &&& 0 <= i < history.len()
    &&& history[i].agent == agent
    &&& inside(protocol::after(start, history.take(i)).phase(agent))
    &&& !inside(protocol::after(start, history.take(i + 1)).phase(agent))
}

/// Whether `event` changes the word.
pub open spec fn modifies(event: Event) -> bool {
    match event {
        Event::Load { .. } => false,
        Event::Exchange { outcome, .. } => outcome is Ok,
        Event::Sub { .. } => true,
        Event::And { .. } => true,
        Event::Pause { .. } => false,
    }
}

/// Whether `event` reads the word and changes it in one.
pub open spec fn reads_and_modifies(event: Event) -> bool {
    event is Exchange || event is Sub || event is And
}

/// Whether `event` changes the word and releases.
pub open spec fn releases(event: Event) -> bool {
    match event {
        Event::Exchange { success, outcome, .. } => outcome is Ok && success is Release,
        Event::Sub { order, .. } => order is Release,
        Event::And { order, .. } => order is Release,
        _ => false,
    }
}

/// Whether `event` changes the word and acquires.
pub open spec fn acquires(event: Event) -> bool {
    match event {
        Event::Exchange { success, outcome, .. } => outcome is Ok && success is Acquire,
        Event::Sub { order, .. } => order is Acquire,
        Event::And { order, .. } => order is Acquire,
        _ => false,
    }
}

/// Whether operation `i` synchronizes with operation `j`, as the memory model has it:
/// `i` releases, `j` acquires and finds the word that the changes before it have left,
/// and every change between the two also reads what it replaces, so that `j` finds a
/// word of the sequence that `i` heads. Then all that the thread of `i` did before it
/// happens before all that the thread of `j` does after it.
pub open spec fn synchronizes(start: Config, history: Seq<Stamp>, i: int, j: int) -> bool {
    &&& 0 <= i < j < history.len()
    &&& releases(history[i].event)
    &&& acquires(history[j].event)
    &&& protocol::sees(protocol::after(start, history.take(j)).word, history[j].event)
    &&& forall|k: int|
        i < k < j && modifies((#[trigger] history[k]).event) ==> reads_and_modifies(
            history[k].event,
        )
}

/// What is done under a guard is published to every later holder: giving a guard up
/// synchronizes with getting any guard afterwards.
pub proof fn leaving_publishes_to_later_holders(
    start: Config,
    history: Seq<Stamp>,
    earlier: int,
    later: int,
    left: int,
    entered: int,
)
    requires
        protocol::possible(start, history),
        left < entered,
        leaves(start, history, earlier, left),
        enters(start, history, later, entered),
    ensures
        synchronizes(start, history, left, entered),
{
    protocol::prefix_step(start, history, left);
    protocol::prefix_step(start, history, entered);
    let before_leaving = protocol::after(start, history.take(left)).phase(earlier);
    let before_entering = protocol::after(start, history.take(entered)).phase(later);
    phase::leaving_releases(before_leaving, history[left].event);
    phase::entering_acquires(before_entering, history[entered].event);
}

/// Whether `agent` holds its guard from operation `entered` to operation `left`.
pub open spec fn section(
    start: Config,
    history: Seq<Stamp>,
    agent: int,
    entered: int,
    left: int,
) -> bool {
    &&& entered < left
    &&& enters(start, history, agent, entered)
    &&& leaves(start, history, agent, left)
    &&& forall|k: int|
        entered < k <= left ==> inside((#[trigger] protocol::after(start, history.take(k))).phase(
            agent,
        ))
}

/// There is no data race: a writer's section and any other section do not overlap, and
/// the end of the earlier one synchronizes with the beginning of the later one.
pub proof fn sections_are_ordered(
    start: Config,
    history: Seq<Stamp>,
    writer: int,
    other: int,
    writer_entered: int,
    writer_left: int,
    other_entered: int,
    other_left: int,
)
    requires
        protocol::possible(start, history),
        writer != other,
        section(start, history, writer, writer_entered, writer_left),
        section(start, history, other, other_entered, other_left),
        protocol::after(start, history.take(writer_left)).phase(writer) is Writing,
    ensures
        synchronizes(start, history, writer_left, other_entered) || synchronizes(
            start,
            history,
            other_left,
            writer_entered,
        ),
{
    if writer_left < other_entered {
        leaving_publishes_to_later_holders(
            start,
            history,
            writer,
            other,
            writer_left,
            other_entered,
        );
    } else if other_left < writer_entered {
        leaving_publishes_to_later_holders(
            start,
            history,
            other,
            writer,
            other_left,
            writer_entered,
        );
    } else {
        let k = if writer_entered < other_entered {
            other_entered + 1
        } else {
            writer_entered + 1
        };
        assert(k <= writer_left && k <= other_left);
        guard_keeps_its_kind(start, history, writer, k, writer_left);
        protocol::prefix_is_possible(start, history, k);
        protocol::writer_excludes_everyone(start, history.take(k), writer, other);
        assert(inside(protocol::after(start, history.take(k)).phase(other)));
    }
}

/// A guard that is live stays what it is until it is given up.
proof fn guard_keeps_its_kind(
    start: Config,
    history: Seq<Stamp>,
    agent: int,
    from: int,
    to: int,
)
    requires
        protocol::possible(start, history),
        0 <= from <= to <= history.len(),
        forall|k: int|
            from <= k <= to ==> inside((#[trigger] protocol::after(start, history.take(k))).phase(
                agent,
            )),
    ensures
        protocol::after(start, history.take(from)).phase(agent) == protocol::after(
            start,
            history.take(to),
        ).phase(agent),
    decreases to - from,
{
    if from < to {
        guard_keeps_its_kind(start, history, agent, from, to - 1);
        protocol::prefix_step(start, history, to - 1);
        assert(inside(protocol::after(start, history.take(to - 1)).phase(agent)));
        assert(inside(protocol::after(start, history.take(to)).phase(agent)));
    }
}

/// Whether the data between `entered` and `left` is changed by reading it at `read`
/// and writing `update` of that back after `written`, and in no other way.
pub open spec fn writes_back<T>(
    data: Seq<T>,
    entered: int,
    left: int,
    read: int,
    written: int,
    update: spec_fn(T) -> T,
) -> bool {
    &&& entered <= read <= written < left
    &&& data[written + 1] == update(data[read])
    &&& forall|k: int|
        entered <= k < left && k != written ==> #[trigger] data[k] == data[k + 1]
}

/// Whether every writer's section reads the data and writes its update of it back.
pub open spec fn sections_update<T>(
    start: Config,
    history: Seq<Stamp>,
    data: Seq<T>,
    update: spec_fn(int) -> spec_fn(T) -> T,
) -> bool {
    forall|writer: int, entered: int, left: int|
        #[trigger] section(start, history, writer, entered, left) && protocol::after(
            start,
            history.take(left),
        ).phase(writer) is Writing ==> exists|read: int, written: int| #[trigger]
            writes_back(data, entered, left, read, written, update(writer))
}

/// The updates of the writers that have left among the first `n` operations, applied
/// to `initial` one after the other.
pub open spec fn serial<T>(
    start: Config,
    history: Seq<Stamp>,
    initial: T,
    update: spec_fn(int) -> spec_fn(T) -> T,
    n: int,
) -> T
    decreases n,
{
    if n <= 0 {
        initial
    } else {
        let earlier = serial(start, history, initial, update, n - 1);
        let agent = history[n - 1].agent;
        if protocol::after(start, history.take(n - 1)).phase(agent) is Writing {
            update(agent)(earlier)
        } else {
            earlier
        }
    }
}

/// A section that writes its update back has applied it to the data it found.
proof fn section_applies_its_update<T>(
    data: Seq<T>,
    entered: int,
    left: int,
    read: int,
    written: int,
    update: spec_fn(T) -> T,
)
    requires
        writes_back(data, entered, left, read, written, update),
    ensures
        data[left] == update(data[entered]),
{
    data_is_unchanged(data, entered, read);
    data_is_unchanged(data, written + 1, left);
}

/// Data that no step changes is the same at both ends.
proof fn data_is_unchanged<T>(data: Seq<T>, from: int, to: int)
    requires
        from <= to,
        forall|k: int| from <= k < to ==> #[trigger] data[k] == data[k + 1],
    ensures
        data[from] == data[to],
    decreases to - from,
{
    if from < to {
        data_is_unchanged(data, from, to - 1);
        assert(data[to - 1] == data[to - 1 + 1]);
    }
}

/// Whether `writer` has been inside since operation `entered`, up to operation `n`,
/// and found the data as the updates before it left it.
spec fn found_serial<T>(
    start: Config,
    history: Seq<Stamp>,
    data: Seq<T>,
    update: spec_fn(int) -> spec_fn(T) -> T,
    writer: int,
    entered: int,
    n: int,
) -> bool {
    &&& 0 <= entered < n
    &&& enters(start, history, writer, entered)
    &&& data[entered] == serial(start, history, data[0], update, n)
    &&& forall|k: int|
        entered < k <= n ==> (#[trigger] protocol::after(start, history.take(k))).phase(
            writer,
        ) is Writing
}

/// Whether no writer is inside.
spec fn nobody_writes(config: Config) -> bool {
    forall|a: int| !(#[trigger] config.phase(a) is Writing)
}

/// A writer that leaves has applied its update.
proof fn serial_when_a_writer_leaves<T>(
    start: Config,
    history: Seq<Stamp>,
    data: Seq<T>,
    update: spec_fn(int) -> spec_fn(T) -> T,
    writer: int,
    entered: int,
    last: int,
)
    requires
        protocol::possible(start, history),
        written_under_lock(start, history, data),
        sections_update(start, history, data, update),
        0 <= last < history.len(),
        history[last].agent == writer,
        found_serial(start, history, data, update, writer, entered, last),
    ensures
        nobody_writes(protocol::after(start, history.take(last + 1))),
        data[last + 1] == serial(start, history, data[0], update, last + 1),
{
    let before = protocol::after(start, history.take(last));
    let now = protocol::after(start, history.take(last + 1));
    protocol::prefix_is_possible(start, history, last);
    protocol::prefix_step(start, history, last);
    assert(before.phase(writer) is Writing);
    assert forall|a: int| !(#[trigger] now.phase(a) is Writing) by {
        if a != writer {
            protocol::writer_excludes_everyone(start, history.take(last), writer, a);
        }
    }
    assert(section(start, history, writer, entered, last));
    let (read, written) = choose|read: int, written: int| #[trigger]
        writes_back(data, entered, last, read, written, update(writer));
    section_applies_its_update(data, entered, last, read, written, update(writer));
    assert(data[last] == data[last + 1]);
}

/// A writer that stays inside keeps what it found.
proof fn serial_while_a_writer_stays<T>(
    start: Config,
    history: Seq<Stamp>,
    data: Seq<T>,
    update: spec_fn(int) -> spec_fn(T) -> T,
    writer: int,
    entered: int,
    last: int,
)
    requires
        protocol::possible(start, history),
        0 <= last < history.len(),
        history[last].agent != writer,
        found_serial(start, history, data, update, writer, entered, last),
    ensures
        found_serial(start, history, data, update, writer, entered, last + 1),
{
    let before = protocol::after(start, history.take(last));
    protocol::prefix_is_possible(start, history, last);
    protocol::prefix_step(start, history, last);
    assert(before.phase(writer) is Writing);
    protocol::writer_excludes_everyone(
        start,
        history.take(last),
        writer,
        history[last].agent,
    );
    assert(protocol::after(start, history.take(last + 1)).phase(writer) is Writing);
}

/// A writer that enters finds the updates before it.
proof fn serial_when_a_writer_enters<T>(
    start: Config,
    history: Seq<Stamp>,
    data: Seq<T>,
    update: spec_fn(int) -> spec_fn(T) -> T,
    writer: int,
    last: int,
)
    requires
        protocol::possible(start, history),
        0 <= last < history.len(),
        nobody_writes(protocol::after(start, history.take(last))),
        data[last] == serial(start, history, data[0], update, last),
        protocol::after(start, history.take(last + 1)).phase(writer) is Writing,
    ensures
        found_serial(start, history, data, update, writer, last, last + 1),
{
    let before = protocol::after(start, history.take(last));
    protocol::prefix_step(start, history, last);
    assert(!(before.phase(writer) is Writing));
    assert(!(before.phase(history[last].agent) is Writing));
}

/// Where no writer is inside, nothing is updated.
proof fn serial_without_a_writer<T>(
    start: Config,
    history: Seq<Stamp>,
    data: Seq<T>,
    update: spec_fn(int) -> spec_fn(T) -> T,
    last: int,
)
    requires
        written_under_lock(start, history, data),
        0 <= last < history.len(),
        nobody_writes(protocol::after(start, history.take(last))),
        nobody_writes(protocol::after(start, history.take(last + 1))),
        data[last] == serial(start, history, data[0], update, last),
    ensures
        data[last + 1] == serial(start, history, data[0], update, last + 1),
{
    assert(!(protocol::after(start, history.take(last)).phase(history[last].agent) is Writing));
    assert(data[last] == data[last + 1]);
}

/// The data after `n` operations. Returns the writer that is inside, if there is one,
/// and the operation with which it has entered.
proof fn serial_so_far<T>(
    start: Config,
    history: Seq<Stamp>,
    data: Seq<T>,
    update: spec_fn(int) -> spec_fn(T) -> T,
    n: int,
) -> (writing: Option<(int, int)>)
    requires
        protocol::possible(start, history),
        written_under_lock(start, history, data),
        sections_update(start, history, data, update),
        0 <= n <= history.len(),
    ensures
        match writing {
            None => {
                &&& nobody_writes(protocol::after(start, history.take(n)))
                &&& data[n] == serial(start, history, data[0], update, n)
            },
            Some((writer, entered)) => found_serial(
                start,
                history,
                data,
                update,
                writer,
                entered,
                n,
            ),
        },
    decreases n,
{
    if n == 0 {
        assert(history.take(0) =~= Seq::empty());
        protocol::prefix_is_possible(start, history, 0);
        assert forall|a: int| !(#[trigger] start.phase(a) is Writing) by {
            assert(start.phase(a).is_start());
        }
        None
    } else {
        let last = n - 1;
        match serial_so_far(start, history, data, update, last) {
            Some((writer, entered)) => if history[last].agent == writer {
                serial_when_a_writer_leaves(start, history, data, update, writer, entered, last);
                None
            } else {
                serial_while_a_writer_stays(start, history, data, update, writer, entered, last);
                Some((writer, entered))
            },
            None => if nobody_writes(protocol::after(start, history.take(n))) {
                serial_without_a_writer(start, history, data, update, last);
                None
            } else {
                let writer = choose|a: int| #[trigger]
                    protocol::after(start, history.take(n)).phase(a) is Writing;
                serial_when_a_writer_enters(start, history, data, update, writer, last);
                Some((writer, last))
            },
        }
    }
}

/// The writers' updates are serial: where every writer's section reads the data and
/// writes its update of it back, the data after a history that leaves no writer inside
/// is all of these updates applied one after the other, in the order in which the
/// writers left.
pub proof fn updates_are_serial<T>(
    start: Config,
    history: Seq<Stamp>,
    data: Seq<T>,
    update: spec_fn(int) -> spec_fn(T) -> T,
)
    requires
        protocol::possible(start, history),
        written_under_lock(start, history, data),
        sections_update(start, history, data, update),
        forall|a: int| !(#[trigger] protocol::after(start, history).phase(a) is Writing),
    ensures
        data[history.len() as int] == serial(
            start,
            history,
            data[0],
            update,
            history.len() as int,
        ),
{
    assert(history.take(history.len() as int) =~= history);
    let writing = serial_so_far(start, history, data, update, history.len() as int);
    if let Some((writer, _)) = writing {
        assert(protocol::after(start, history).phase(writer) is Writing);
    }
}

/// How many of the first `n` operations end a writer's section.
pub open spec fn completed_writes(start: Config, history: Seq<Stamp>, n: int) -> int
    decreases n,
{
    if n <= 0 {
        0
    } else {
        completed_writes(start, history, n - 1) + (if protocol::after(
            start,
            history.take(n - 1),
        ).phase(history[n - 1].agent) is Writing {
            1int
        } else {
            0
        })
    }
}

/// Counting is serial counting: where every section adds one, the count is the number
/// of sections.
proof fn serial_count(start: Config, history: Seq<Stamp>, initial: int, n: int)
    ensures
        serial(start, history, initial, |a: int| |value: int| value + 1, n) == initial
            + completed_writes(start, history, if n < 0 { 0 } else { n }),
    decreases n,
{
    if n > 0 {
        serial_count(start, history, initial, n - 1);
    }
}

/// No increment is lost: a counter that every writer's section reads and writes back
/// with one added has grown by the number of the sections that have ended.
pub proof fn no_increment_is_lost(start: Config, history: Seq<Stamp>, data: Seq<int>)
    requires
        protocol::possible(start, history),
        written_under_lock(start, history, data),
        sections_update(start, history, data, |a: int| |value: int| value + 1),
        forall|a: int| !(#[trigger] protocol::after(start, history).phase(a) is Writing),
    ensures
        data[history.len() as int] == data[0] + completed_writes(
            start,
            history,
            history.len() as int,
        ),
{
    updates_are_serial(start, history, data, |a: int| |value: int| value + 1);
    serial_count(start, history, data[0], history.len() as int);
}

} // verus!
