//! The spin lock and its guards.

pub use crate::intrusive::{
    HasIntrusiveSpinRwLock, IntrusiveReadGuard, IntrusiveReadWaiter, IntrusiveSpinRwLock,
    IntrusiveWriteGuard, IntrusiveWriteWaiter,
};
#[allow(unused_imports)]
use crate::phase;
#[allow(unused_imports)]
use crate::phase::Phase;
#[allow(unused_imports)]
use crate::state;
use crate::state::attempt;
use crate::state::attempt::Waiting;
#[allow(unused_imports)]
use crate::state::{Event, MemoryOrder, Receipt, StateWord};
#[allow(unused_imports)]
use crate::word;
use crate::word::WRITER_MASK;
#[allow(unused_imports)]
use core::sync::atomic::AtomicU64;
use vstd::prelude::*;

verus! {

/// How far a blocking acquisition has come.
pub enum Progress {
    /// It has the lock.
    Acquired,
    /// It stopped, as the count of readers is at its limit.
    Overflow,
    /// It waits, and the thread is to be yielded before it goes on.
    Yield,
}

/// Whether no operation of `log` from `from` up to `to` is a yield of the thread.
pub open spec fn no_yield(log: Seq<Event>, from: int, to: int) -> bool {
    forall|i: int| from <= i < to ==> !state::is_yield(#[trigger] log[i])
}

/// Whether a blocking read that has made the operations of `log`, those from `from` on
/// without handing the thread back, has come to `progress`.
pub open spec fn read_progress(log: Seq<Event>, from: int, progress: Progress) -> bool {
    match progress {
        Progress::Acquired => {
            &&& no_yield(log, from, log.len() as int)
            &&& phase::run(Phase::ReadStart, log) == Some(Phase::Reading)
        },
        Progress::Overflow => {
            &&& no_yield(log, from, log.len() as int)
            &&& phase::run(Phase::ReadStart, log) matches Some(Phase::ReadWait(wait))
            &&& wait.turn is Decide
            &&& word::spec_claim_read(wait.seen) is Full
        },
        Progress::Yield => {
            &&& from < log.len()
            &&& no_yield(log, from, log.len() - 1)
            &&& state::is_yield(log.last())
            &&& phase::run(Phase::ReadStart, log) matches Some(Phase::ReadWait(_))
        },
    }
}

/// Whether a single attempt to read that made the operations of `log` came to
/// `acquired`.
pub open spec fn try_read_outcome(log: Seq<Event>, acquired: bool) -> bool {
    match phase::run(Phase::TryReadStart, log) {
        Some(Phase::Reading) => acquired,
        Some(Phase::TryReadSeen(seen)) => !acquired && !(word::spec_claim_read(seen) is Enter),
        Some(Phase::Refused) => !acquired,
        _ => false,
    }
}

/// Whether a blocking write that has made the operations of `log`, those from `from`
/// on without handing the thread back, has come to `progress`.
pub open spec fn write_progress(log: Seq<Event>, from: int, progress: Progress) -> bool {
    match progress {
        Progress::Acquired => {
            &&& no_yield(log, from, log.len() as int)
            &&& phase::run(Phase::WriteStart, log) == Some(Phase::Writing)
        },
        Progress::Overflow => false,
        Progress::Yield => {
            &&& from < log.len()
            &&& no_yield(log, from, log.len() - 1)
            &&& state::is_yield(log.last())
            &&& match phase::run(Phase::WriteStart, log) {
                Some(Phase::Claiming(_)) => true,
                Some(Phase::Draining(_)) => true,
                _ => false,
            }
        },
    }
}

/// Whether a single attempt to write that made the operations of `log` came to
/// `acquired`.
pub open spec fn try_write_outcome(log: Seq<Event>, acquired: bool) -> bool {
    match phase::run(Phase::TryWriteStart, log) {
        Some(Phase::Writing) => acquired,
        Some(Phase::Refused) => !acquired,
        _ => false,
    }
}

/// A blocking acquisition that has not got the lock.
pub enum Blocked<W> {
    /// As many readers as can be counted hold the lock.
    Overflow(Receipt),
    /// The acquisition waits. The thread is to be yielded, and then the wait resumed.
    Yield(W),
}

/// A reader-writer spin lock. It guards no data of its own: it stands next to, or
/// inside, what it protects.
pub struct SpinRwLock {
    state: StateWord,
}

/// A blocking read that waits.
#[must_use]
pub struct ReadWaiter<'a> {
    word: &'a StateWord,
    receipt: Receipt,
    waiting: Waiting,
}

impl<'a> ReadWaiter<'a> {
    /// The lock that is waited for.
    pub closed spec fn lock(self) -> SpinRwLock {
        SpinRwLock { state: *self.word }
    }

    /// The operations that were made on the lock's word so far.
    pub closed spec fn log(self) -> Seq<Event> {
        self.receipt.log()
    }

    /// How many calls that can change the word were made for this.
    pub closed spec fn permits(self) -> nat {
        self.receipt.permits()
    }

    #[verifier::type_invariant]
    spec fn waits(self) -> bool {
        &&& self.receipt.of() == *self.word
        &&& self.receipt.accounts_for_all()
        &&& self.receipt.start() == Phase::ReadStart
        &&& self.receipt.phase() == Phase::ReadWait(self.waiting.wait())
    }

    /// Goes on waiting, until the lock is acquired or the thread is to be yielded
    /// again.
    pub fn resume(self) -> (result: Result<ReadGuard<'a>, Blocked<ReadWaiter<'a>>>)
        ensures
            match result {
                Ok(guard) => {
                    &&& guard.is_live()
                    &&& guard.lock() == self.lock()
                    &&& state::accounted(guard.lock().word(), guard.log(), guard.permits())
                    &&& self.log().is_prefix_of(guard.log())
                    &&& read_progress(guard.log(), self.log().len() as int, Progress::Acquired)
                },
                Err(Blocked::Overflow(receipt)) => {
                    &&& receipt.of() == self.lock().word()
                    &&& receipt.accounts_for_all()
                    &&& self.log().is_prefix_of(receipt.log())
                    &&& read_progress(receipt.log(), self.log().len() as int, Progress::Overflow)
                },
                Err(Blocked::Yield(waiter)) => {
                    &&& waiter.lock() == self.lock()
                    &&& state::accounted(waiter.lock().word(), waiter.log(), waiter.permits())
                    &&& self.log().is_prefix_of(waiter.log())
                    &&& read_progress(waiter.log(), self.log().len() as int, Progress::Yield)
                },
            },
    {
        proof {
            use_type_invariant(&self);
        }
        let ReadWaiter { word, mut receipt, mut waiting } = self;
        match attempt::wait_to_read(word, &mut receipt, &mut waiting) {
            Progress::Acquired => Ok(ReadGuard { word: Some(word), receipt }),
            Progress::Overflow => Err(Blocked::Overflow(receipt)),
            Progress::Yield => Err(Blocked::Yield(ReadWaiter { word, receipt, waiting })),
        }
    }
}

/// A blocking write that waits. Once it has announced itself it keeps readers and
/// other writers out until it has had the lock, so it has to be resumed.
#[must_use]
pub struct WriteWaiter<'a> {
    word: &'a StateWord,
    receipt: Receipt,
    waiting: Waiting,
    announced: bool,
}

impl<'a> WriteWaiter<'a> {
    /// The lock that is waited for.
    pub closed spec fn lock(self) -> SpinRwLock {
        SpinRwLock { state: *self.word }
    }

    /// The operations that were made on the lock's word so far.
    pub closed spec fn log(self) -> Seq<Event> {
        self.receipt.log()
    }

    /// How many calls that can change the word were made for this.
    pub closed spec fn permits(self) -> nat {
        self.receipt.permits()
    }

    #[verifier::type_invariant]
    spec fn waits(self) -> bool {
        &&& self.receipt.of() == *self.word
        &&& self.receipt.accounts_for_all()
        &&& self.receipt.start() == Phase::WriteStart
        &&& self.receipt.phase() == (if self.announced {
            Phase::Draining(self.waiting.wait())
        } else {
            Phase::Claiming(self.waiting.wait())
        })
    }

    /// Goes on waiting, first to announce itself as the only pending writer, then for
    /// the lock to drain, until the lock is acquired or the thread is to be yielded
    /// again.
    pub fn resume(self) -> (result: Result<WriteGuard<'a>, WriteWaiter<'a>>)
        ensures
            match result {
                Ok(guard) => {
                    &&& guard.is_live()
                    &&& guard.lock() == self.lock()
                    &&& state::accounted(guard.lock().word(), guard.log(), guard.permits())
                    &&& self.log().is_prefix_of(guard.log())
                    &&& write_progress(guard.log(), self.log().len() as int, Progress::Acquired)
                },
                Err(waiter) => {
                    &&& waiter.lock() == self.lock()
                    &&& state::accounted(waiter.lock().word(), waiter.log(), waiter.permits())
                    &&& self.log().is_prefix_of(waiter.log())
                    &&& write_progress(waiter.log(), self.log().len() as int, Progress::Yield)
                },
            },
    {
        proof {
            use_type_invariant(&self);
        }
        let WriteWaiter { word, mut receipt, mut waiting, mut announced } = self;
        match attempt::wait_to_write(word, &mut receipt, &mut waiting, &mut announced) {
            Progress::Acquired => Ok(WriteGuard { word: Some(word), receipt }),
            _ => Err(WriteWaiter { word, receipt, waiting, announced }),
        }
    }
}

impl SpinRwLock {
    /// The word that the lock keeps its state in.
    pub closed spec fn word(self) -> StateWord {
        self.state
    }

    /// A lock that nobody holds.
    pub fn new() -> (lock: Self)
        ensures
            lock.word().initial() == 0,
            call_ensures(AtomicU64::new, (0u64,), lock.word().atomic()),
    {
        SpinRwLock { state: StateWord::new(0) }
    }

    /// Begins to wait for a read lock.
    pub fn read(&self) -> (result: Result<ReadGuard<'_>, Blocked<ReadWaiter<'_>>>)
        ensures
            match result {
                Ok(guard) => {
                    &&& guard.is_live()
                    &&& guard.lock() == *self
                    &&& state::accounted(guard.lock().word(), guard.log(), guard.permits())
                    &&& read_progress(guard.log(), 0, Progress::Acquired)
                },
                Err(Blocked::Overflow(receipt)) => {
                    &&& receipt.of() == self.word()
                    &&& receipt.accounts_for_all()
                    &&& read_progress(receipt.log(), 0, Progress::Overflow)
                },
                Err(Blocked::Yield(waiter)) => {
                    &&& waiter.lock() == *self
                    &&& state::accounted(waiter.lock().word(), waiter.log(), waiter.permits())
                    &&& read_progress(waiter.log(), 0, Progress::Yield)
                },
            },
    {
        self._read()
    }

    /// Takes a read lock if there is no writer, pending or inside, and no other thread
    /// changes the lock at the same moment.
    pub fn try_read(&self) -> (result: Option<ReadGuard<'_>>)
        ensures
            match result {
                Some(guard) => {
                    &&& guard.is_live()
                    &&& guard.lock() == *self
                    &&& state::accounted(guard.lock().word(), guard.log(), guard.permits())
                    &&& try_read_outcome(guard.log(), true)
                },
                None => exists|receipt: Receipt|
                    {
                        &&& #[trigger] call_ensures(Self::_try_read, (self,), Err(receipt))
                        &&& receipt.of() == self.word()
                        &&& receipt.accounts_for_all()
                        &&& try_read_outcome(receipt.log(), false)
                    },
            },
    {
        let attempt = self._try_read();
        assert(call_ensures(Self::_try_read, (self,), attempt));
        match attempt {
            Ok(guard) => Some(guard),
            Err(_) => None,
        }
    }

    /// Looks at the word and waits, until a read lock is acquired or the thread is to be
    /// yielded.
    pub(crate) fn _read(&self) -> (result: Result<ReadGuard<'_>, Blocked<ReadWaiter<'_>>>)
        ensures
            match result {
                Ok(guard) => {
                    &&& guard.is_live()
                    &&& guard.lock() == *self
                    &&& state::accounted(guard.lock().word(), guard.log(), guard.permits())
                    &&& read_progress(guard.log(), 0, Progress::Acquired)
                },
                Err(Blocked::Overflow(receipt)) => {
                    &&& receipt.of() == self.word()
                    &&& receipt.accounts_for_all()
                    &&& read_progress(receipt.log(), 0, Progress::Overflow)
                },
                Err(Blocked::Yield(waiter)) => {
                    &&& waiter.lock() == *self
                    &&& state::accounted(waiter.lock().word(), waiter.log(), waiter.permits())
                    &&& read_progress(waiter.log(), 0, Progress::Yield)
                },
            },
    {
        let mut receipt = StateWord::receipt(self, Ghost(Phase::ReadStart));
        let waiting = attempt::look(&self.state, &mut receipt);
        let waiter = ReadWaiter { word: &self.state, receipt, waiting };
        waiter.resume()
    }

    /// Makes one attempt at a read lock.
    pub fn _try_read(&self) -> (result: Result<ReadGuard<'_>, Receipt>)
        ensures
            match result {
                Ok(guard) => {
                    &&& guard.is_live()
                    &&& guard.lock() == *self
                    &&& state::accounted(guard.lock().word(), guard.log(), guard.permits())
                    &&& try_read_outcome(guard.log(), true)
                },
                Err(receipt) => {
                    &&& receipt.of() == self.word()
                    &&& receipt.accounts_for_all()
                    &&& try_read_outcome(receipt.log(), false)
                },
            },
    {
        let mut receipt = StateWord::receipt(self, Ghost(Phase::TryReadStart));
        if attempt::try_to_read(&self.state, &mut receipt) {
            Ok(ReadGuard { word: Some(&self.state), receipt })
        } else {
            Err(receipt)
        }
    }

    /// Gives one read lock back, with the operations of the section ordered before it.
    /// It does not matter if a writer is pending: the reader is then draining.
    pub(crate) fn unlock_read(word: &StateWord, receipt: &mut Receipt)
        requires
            old(receipt).of() == *word,
            old(receipt).phase() == Phase::Reading,
        ensures
            exists|previous: u64| #[trigger]
                final(receipt).extends(
                    *old(receipt),
                    Event::Sub { amount: 1, order: MemoryOrder::Release, previous },
                ),
            final(receipt).permits() == old(receipt).permits() + 1,
            old(receipt).accounts_for_all() ==> final(receipt).accounts_for_all(),
        opens_invariants none
        no_unwind
    {
        proof {
            use_type_invariant(&*receipt);
        }
        let previous: u64 = word.fetch_sub(receipt, 1, MemoryOrder::Release);
        proof {
            state::operation_moves_on(
                *old(receipt),
                *receipt,
                Event::Sub { amount: 1, order: MemoryOrder::Release, previous },
            );
        }
    }

    /// Begins to wait for the write lock.
    pub fn write(&self) -> (result: Result<WriteGuard<'_>, WriteWaiter<'_>>)
        ensures
            match result {
                Ok(guard) => {
                    &&& guard.is_live()
                    &&& guard.lock() == *self
                    &&& state::accounted(guard.lock().word(), guard.log(), guard.permits())
                    &&& write_progress(guard.log(), 0, Progress::Acquired)
                },
                Err(waiter) => {
                    &&& waiter.lock() == *self
                    &&& state::accounted(waiter.lock().word(), waiter.log(), waiter.permits())
                    &&& write_progress(waiter.log(), 0, Progress::Yield)
                },
            },
    {
        self._write()
    }

    /// Takes the write lock if nobody holds the lock or waits to write.
    pub fn try_write(&self) -> (result: Option<WriteGuard<'_>>)
        ensures
            match result {
                Some(guard) => {
                    &&& guard.is_live()
                    &&& guard.lock() == *self
                    &&& state::accounted(guard.lock().word(), guard.log(), guard.permits())
                    &&& try_write_outcome(guard.log(), true)
                },
                None => exists|receipt: Receipt|
                    {
                        &&& #[trigger] call_ensures(Self::_try_write, (self,), Err(receipt))
                        &&& receipt.of() == self.word()
                        &&& receipt.accounts_for_all()
                        &&& try_write_outcome(receipt.log(), false)
                    },
            },
        opens_invariants none
    {
        let attempt = self._try_write();
        assert(call_ensures(Self::_try_write, (self,), attempt));
        match attempt {
            Ok(guard) => Some(guard),
            Err(_) => None,
        }
    }

    /// Looks at the word and waits, until the write lock is acquired or the thread is to
    /// be yielded.
    pub(crate) fn _write(&self) -> (result: Result<WriteGuard<'_>, WriteWaiter<'_>>)
        ensures
            match result {
                Ok(guard) => {
                    &&& guard.is_live()
                    &&& guard.lock() == *self
                    &&& state::accounted(guard.lock().word(), guard.log(), guard.permits())
                    &&& write_progress(guard.log(), 0, Progress::Acquired)
                },
                Err(waiter) => {
                    &&& waiter.lock() == *self
                    &&& state::accounted(waiter.lock().word(), waiter.log(), waiter.permits())
                    &&& write_progress(waiter.log(), 0, Progress::Yield)
                },
            },
    {
        let mut receipt = StateWord::receipt(self, Ghost(Phase::WriteStart));
        let waiting = attempt::look(&self.state, &mut receipt);
        let waiter = WriteWaiter { word: &self.state, receipt, waiting, announced: false };
        waiter.resume()
    }

    /// Makes one attempt at the write lock.
    pub fn _try_write(&self) -> (result: Result<WriteGuard<'_>, Receipt>)
        ensures
            match result {
                Ok(guard) => {
                    &&& guard.is_live()
                    &&& guard.lock() == *self
                    &&& state::accounted(guard.lock().word(), guard.log(), guard.permits())
                    &&& try_write_outcome(guard.log(), true)
                },
                Err(receipt) => {
                    &&& receipt.of() == self.word()
                    &&& receipt.accounts_for_all()
                    &&& try_write_outcome(receipt.log(), false)
                },
            },
        opens_invariants none
    {
        let mut receipt = StateWord::receipt(self, Ghost(Phase::TryWriteStart));
        if attempt::try_to_write(&self.state, &mut receipt) {
            Ok(WriteGuard { word: Some(&self.state), receipt })
        } else {
            Err(receipt)
        }
    }

    /// Gives the write lock back. What the section wrote is published before the lock
    /// comes free, and both writer bits go at once.
    pub(crate) fn unlock_write(word: &StateWord, receipt: &mut Receipt)
        requires
            old(receipt).of() == *word,
            old(receipt).phase() == Phase::Writing,
        ensures
            exists|previous: u64| #[trigger]
                final(receipt).extends(
                    *old(receipt),
                    Event::And { mask: !WRITER_MASK, order: MemoryOrder::Release, previous },
                ),
            final(receipt).permits() == old(receipt).permits() + 1,
            old(receipt).accounts_for_all() ==> final(receipt).accounts_for_all(),
        opens_invariants none
        no_unwind
    {
        proof {
            use_type_invariant(&*receipt);
        }
        let previous: u64 = word.fetch_and(receipt, !WRITER_MASK, MemoryOrder::Release);
        proof {
            state::operation_moves_on(
                *old(receipt),
                *receipt,
                Event::And { mask: !WRITER_MASK, order: MemoryOrder::Release, previous },
            );
        }
    }
}

impl Default for SpinRwLock {
    fn default() -> (lock: Self)
        ensures
            lock.word().initial() == 0,
            call_ensures(AtomicU64::new, (0u64,), lock.word().atomic()),
    {
        Self::new()
    }
}

/// A read lock that is held until the guard is dropped.
#[must_use]
pub struct ReadGuard<'a> {
    word: Option<&'a StateWord>,
    receipt: Receipt,
}

impl<'a> ReadGuard<'a> {
    /// Whether the guard holds its lock. It does until it is dropped.
    pub closed spec fn is_live(self) -> bool {
        self.word is Some
    }

    /// The lock that is held.
    pub closed spec fn lock(self) -> SpinRwLock {
        SpinRwLock { state: *self.word->0 }
    }

    /// The operations that were made on the lock's word for this guard.
    pub closed spec fn log(self) -> Seq<Event> {
        self.receipt.log()
    }

    /// How many calls that can change the word were made for this.
    pub closed spec fn permits(self) -> nat {
        self.receipt.permits()
    }

    #[verifier::type_invariant]
    spec fn holds(self) -> bool {
        self.word matches Some(word) ==> {
            &&& self.receipt.of() == *word
            &&& self.receipt.accounts_for_all()
            &&& self.receipt.phase() == Phase::Reading
        }
    }
}

impl<'a> Drop for ReadGuard<'a> {
    fn drop(&mut self)
        ensures
            !final(self).is_live(),
            old(self).is_live() ==> final(self).permits() == old(self).permits() + 1,
            old(self).is_live() ==> state::accounted(
                old(self).lock().word(),
                final(self).log(),
                final(self).permits(),
            ),
            old(self).is_live() ==> exists|previous: u64|
                final(self).log() == #[trigger] old(self).log().push(
                    Event::Sub { amount: 1, order: MemoryOrder::Release, previous },
                ),
        opens_invariants none
        no_unwind
    {
        proof {
            use_type_invariant(&*self);
        }
        let held = self.word;
        self.word = None;
        match held {
            Some(word) => {
                let ghost before = self.receipt;
                SpinRwLock::unlock_read(word, &mut self.receipt);
                proof {
                    let previous = choose|previous: u64| #[trigger]
                        self.receipt.extends(
                            before,
                            Event::Sub { amount: 1, order: MemoryOrder::Release, previous },
                        );
                    assert(self.log() == old(self).log().push(
                        Event::Sub { amount: 1, order: MemoryOrder::Release, previous },
                    ));
                }
            },
            None => {},
        }
    }
}

/// The write lock, held until the guard is dropped.
#[must_use]
pub struct WriteGuard<'a> {
    word: Option<&'a StateWord>,
    receipt: Receipt,
}

impl<'a> WriteGuard<'a> {
    /// Whether the guard holds its lock. It does until it is dropped.
    pub closed spec fn is_live(self) -> bool {
        self.word is Some
    }

    /// The lock that is held.
    pub closed spec fn lock(self) -> SpinRwLock {
        SpinRwLock { state: *self.word->0 }
    }

    /// The operations that were made on the lock's word for this guard.
    pub closed spec fn log(self) -> Seq<Event> {
        self.receipt.log()
    }

    /// How many calls that can change the word were made for this.
    pub closed spec fn permits(self) -> nat {
        self.receipt.permits()
    }

    #[verifier::type_invariant]
    spec fn holds(self) -> bool {
        self.word matches Some(word) ==> {
            &&& self.receipt.of() == *word
            &&& self.receipt.accounts_for_all()
            &&& self.receipt.phase() == Phase::Writing
        }
    }
}

impl<'a> Drop for WriteGuard<'a> {
    fn drop(&mut self)
        ensures
            !final(self).is_live(),
            old(self).is_live() ==> final(self).permits() == old(self).permits() + 1,
            old(self).is_live() ==> state::accounted(
                old(self).lock().word(),
                final(self).log(),
                final(self).permits(),
            ),
            old(self).is_live() ==> exists|previous: u64|
                final(self).log() == #[trigger] old(self).log().push(
                    Event::And { mask: !WRITER_MASK, order: MemoryOrder::Release, previous },
                ),
        opens_invariants none
        no_unwind
    {
        proof {
            use_type_invariant(&*self);
        }
        let held = self.word;
        self.word = None;
        match held {
            Some(word) => {
                let ghost before = self.receipt;
                SpinRwLock::unlock_write(word, &mut self.receipt);
                proof {
                    let previous = choose|previous: u64| #[trigger]
                        self.receipt.extends(
                            before,
                            Event::And {
                                mask: !WRITER_MASK,
                                order: MemoryOrder::Release,
                                previous,
                            },
                        );
                    assert(self.log() == old(self).log().push(
                        Event::And { mask: !WRITER_MASK, order: MemoryOrder::Release, previous },
                    ));
                }
            },
            None => {},
        }
    }
}

} // verus!
