//! A lock that lives inside the value it protects.

#[allow(unused_imports)]
use crate::spin_rwlock;
#[allow(unused_imports)]
use crate::spin_rwlock::{
    Blocked, Progress, ReadGuard, ReadWaiter, SpinRwLock, WriteGuard, WriteWaiter,
};
#[allow(unused_imports)]
use crate::state;
#[allow(unused_imports)]
use crate::state::{Event, Receipt};
use core::ops::Deref;
use vstd::prelude::*;

verus! {

/// A value that contains the lock that protects it.
pub trait HasIntrusiveSpinRwLock {
    /// Returns the lock that protects this value. The reference has to stay valid and
    /// refer to the same lock for as long as the value lives.
    fn lock(&self) -> &SpinRwLock;
}

/// Whether `lock` is a lock that `value` returns as the one that protects it.
pub open spec fn protects<T: HasIntrusiveSpinRwLock>(lock: SpinRwLock, value: T) -> bool {
    call_ensures(T::lock, (&value,), &lock)
}

/// A value that is reached through guards of the lock inside it.
///
/// Both kinds of guard hand out shared references. A value that is to be changed under
/// the write lock changes from within, as a cell does: the write guard is what makes
/// that safe.
pub struct IntrusiveSpinRwLock<T> {
    inner: T,
}

impl<T> IntrusiveSpinRwLock<T> {
    /// The value.
    pub closed spec fn inner(self) -> T {
        self.inner
    }

    /// Puts `value` under the lock inside it.
    pub fn new(value: T) -> (lock: Self)
        ensures
            lock.inner() == value,
    {
        IntrusiveSpinRwLock { inner: value }
    }
}

impl<T: Default> Default for IntrusiveSpinRwLock<T> {
    fn default() -> (lock: Self)
        ensures
            call_ensures(T::default, (), lock.inner()),
    {
        Self::new(T::default())
    }
}

impl<T: HasIntrusiveSpinRwLock> IntrusiveSpinRwLock<T> {
    /// Begins to wait for a read lock on the value.
    pub fn read(&self) -> (result: Result<
        IntrusiveReadGuard<'_, T>,
        Blocked<IntrusiveReadWaiter<'_, T>>,
    >)
        ensures
            match result {
                Ok(guard) => {
                    &&& guard.is_live()
                    &&& guard.value() == self.inner()
                    &&& protects(guard.lock(), self.inner())
                    &&& state::accounted(guard.lock().word(), guard.log(), guard.permits())
                    &&& spin_rwlock::read_progress(guard.log(), 0, Progress::Acquired)
                },
                Err(Blocked::Overflow(receipt)) => {
                    &&& exists|lock: SpinRwLock| #[trigger]
                        protects(lock, self.inner()) && receipt.of() == lock.word()
                    &&& receipt.accounts_for_all()
                    &&& spin_rwlock::read_progress(receipt.log(), 0, Progress::Overflow)
                },
                Err(Blocked::Yield(waiter)) => {
                    &&& waiter.value() == self.inner()
                    &&& protects(waiter.lock(), self.inner())
                    &&& state::accounted(waiter.lock().word(), waiter.log(), waiter.permits())
                    &&& spin_rwlock::read_progress(waiter.log(), 0, Progress::Yield)
                },
            },
    {
        let lock = self.inner.lock();
        assert(protects(*lock, self.inner()));
        match lock._read() {
            Ok(held) => Ok(IntrusiveReadGuard { value: &self.inner, held }),
            Err(Blocked::Overflow(receipt)) => Err(Blocked::Overflow(receipt)),
            Err(Blocked::Yield(waiter)) => Err(
                Blocked::Yield(IntrusiveReadWaiter { value: &self.inner, waiter }),
            ),
        }
    }

    /// Makes one attempt at a read lock on the value.
    pub fn try_read(&self) -> (result: Option<IntrusiveReadGuard<'_, T>>)
        ensures
            match result {
                Some(guard) => {
                    &&& guard.is_live()
                    &&& guard.value() == self.inner()
                    &&& protects(guard.lock(), self.inner())
                    &&& state::accounted(guard.lock().word(), guard.log(), guard.permits())
                    &&& spin_rwlock::try_read_outcome(guard.log(), true)
                },
                None => exists|lock: SpinRwLock, receipt: Receipt|
                    {
                        &&& #[trigger] protects(lock, self.inner())
                        &&& #[trigger] call_ensures(
                            SpinRwLock::_try_read,
                            (&lock,),
                            Err(receipt),
                        )
                        &&& receipt.of() == lock.word()
                        &&& receipt.accounts_for_all()
                        &&& spin_rwlock::try_read_outcome(receipt.log(), false)
                    },
            },
    {
        let lock = self.inner.lock();
        assert(protects(*lock, self.inner()));
        let attempt = lock._try_read();
        assert(call_ensures(SpinRwLock::_try_read, (lock,), attempt));
        match attempt {
            Ok(held) => Some(IntrusiveReadGuard { value: &self.inner, held }),
            Err(_) => None,
        }
    }

    /// Begins to wait for the write lock on the value.
    pub fn write(&self) -> (result: Result<
        IntrusiveWriteGuard<'_, T>,
        IntrusiveWriteWaiter<'_, T>,
    >)
        ensures
            match result {
                Ok(guard) => {
                    &&& guard.is_live()
                    &&& guard.value() == self.inner()
                    &&& protects(guard.lock(), self.inner())
                    &&& state::accounted(guard.lock().word(), guard.log(), guard.permits())
                    &&& spin_rwlock::write_progress(guard.log(), 0, Progress::Acquired)
                },
                Err(waiter) => {
                    &&& waiter.value() == self.inner()
                    &&& protects(waiter.lock(), self.inner())
                    &&& state::accounted(waiter.lock().word(), waiter.log(), waiter.permits())
                    &&& spin_rwlock::write_progress(waiter.log(), 0, Progress::Yield)
                },
            },
    {
        let lock = self.inner.lock();
        assert(protects(*lock, self.inner()));
        match lock._write() {
            Ok(held) => Ok(IntrusiveWriteGuard { value: &self.inner, held }),
            Err(waiter) => Err(IntrusiveWriteWaiter { value: &self.inner, waiter }),
        }
    }

    /// Makes one attempt at the write lock on the value.
    pub fn try_write(&self) -> (result: Option<IntrusiveWriteGuard<'_, T>>)
        ensures
            match result {
                Some(guard) => {
                    &&& guard.is_live()
                    &&& guard.value() == self.inner()
                    &&& protects(guard.lock(), self.inner())
                    &&& state::accounted(guard.lock().word(), guard.log(), guard.permits())
                    &&& spin_rwlock::try_write_outcome(guard.log(), true)
                },
                None => exists|lock: SpinRwLock, receipt: Receipt|
                    {
                        &&& #[trigger] protects(lock, self.inner())
                        &&& #[trigger] call_ensures(
                            SpinRwLock::_try_write,
                            (&lock,),
                            Err(receipt),
                        )
                        &&& receipt.of() == lock.word()
                        &&& receipt.accounts_for_all()
                        &&& spin_rwlock::try_write_outcome(receipt.log(), false)
                    },
            },
    {
        let lock = self.inner.lock();
        assert(protects(*lock, self.inner()));
        let attempt = lock._try_write();
        assert(call_ensures(SpinRwLock::_try_write, (lock,), attempt));
        match attempt {
            Ok(held) => Some(IntrusiveWriteGuard { value: &self.inner, held }),
            Err(_) => None,
        }
    }
}

/// A blocking read of a value that waits.
#[must_use]
pub struct IntrusiveReadWaiter<'a, T> {
    value: &'a T,
    waiter: ReadWaiter<'a>,
}

impl<'a, T> IntrusiveReadWaiter<'a, T> {
    /// The value.
    pub closed spec fn value(self) -> T {
        *self.value
    }

    /// The lock that is waited for.
    pub closed spec fn lock(self) -> SpinRwLock {
        self.waiter.lock()
    }

    /// The operations that were made on the lock's word so far.
    pub closed spec fn log(self) -> Seq<Event> {
        self.waiter.log()
    }

    /// How many calls that can change the word were made for this.
    pub closed spec fn permits(self) -> nat {
        self.waiter.permits()
    }

    /// Goes on waiting, until the lock is acquired or the thread is to be yielded
    /// again.
    pub fn resume(self) -> (result: Result<
        IntrusiveReadGuard<'a, T>,
        Blocked<IntrusiveReadWaiter<'a, T>>,
    >)
        ensures
            match result {
                Ok(guard) => {
                    &&& guard.is_live()
                    &&& guard.value() == self.value()
                    &&& guard.lock() == self.lock()
                    &&& state::accounted(guard.lock().word(), guard.log(), guard.permits())
                    &&& self.log().is_prefix_of(guard.log())
                    &&& spin_rwlock::read_progress(
                        guard.log(),
                        self.log().len() as int,
                        Progress::Acquired,
                    )
                },
                Err(Blocked::Overflow(receipt)) => {
                    &&& receipt.of() == self.lock().word()
                    &&& receipt.accounts_for_all()
                    &&& self.log().is_prefix_of(receipt.log())
                    &&& spin_rwlock::read_progress(
                        receipt.log(),
                        self.log().len() as int,
                        Progress::Overflow,
                    )
                },
                Err(Blocked::Yield(waiter)) => {
                    &&& waiter.value() == self.value()
                    &&& waiter.lock() == self.lock()
                    &&& state::accounted(waiter.lock().word(), waiter.log(), waiter.permits())
                    &&& self.log().is_prefix_of(waiter.log())
                    &&& spin_rwlock::read_progress(
                        waiter.log(),
                        self.log().len() as int,
                        Progress::Yield,
                    )
                },
            },
    {
        match self.waiter.resume() {
            Ok(held) => Ok(IntrusiveReadGuard { value: self.value, held }),
            Err(Blocked::Overflow(receipt)) => Err(Blocked::Overflow(receipt)),
            Err(Blocked::Yield(waiter)) => Err(
                Blocked::Yield(IntrusiveReadWaiter { value: self.value, waiter }),
            ),
        }
    }
}

/// A blocking write of a value that waits. Once it has announced itself it keeps
/// everyone else out until it has had the lock, so it has to be resumed.
#[must_use]
pub struct IntrusiveWriteWaiter<'a, T> {
    value: &'a T,
    waiter: WriteWaiter<'a>,
}

impl<'a, T> IntrusiveWriteWaiter<'a, T> {
    /// The value.
    pub closed spec fn value(self) -> T {
        *self.value
    }

    /// The lock that is waited for.
    pub closed spec fn lock(self) -> SpinRwLock {
        self.waiter.lock()
    }

    /// The operations that were made on the lock's word so far.
    pub closed spec fn log(self) -> Seq<Event> {
        self.waiter.log()
    }

    /// How many calls that can change the word were made for this.
    pub closed spec fn permits(self) -> nat {
        self.waiter.permits()
    }

    /// Goes on waiting, until the lock is acquired or the thread is to be yielded
    /// again.
    pub fn resume(self) -> (result: Result<
        IntrusiveWriteGuard<'a, T>,
        IntrusiveWriteWaiter<'a, T>,
    >)
        ensures
            match result {
                Ok(guard) => {
                    &&& guard.is_live()
                    &&& guard.value() == self.value()
                    &&& guard.lock() == self.lock()
                    &&& state::accounted(guard.lock().word(), guard.log(), guard.permits())
                    &&& self.log().is_prefix_of(guard.log())
                    &&& spin_rwlock::write_progress(
                        guard.log(),
                        self.log().len() as int,
                        Progress::Acquired,
                    )
                },
                Err(waiter) => {
                    &&& waiter.value() == self.value()
                    &&& waiter.lock() == self.lock()
                    &&& state::accounted(waiter.lock().word(), waiter.log(), waiter.permits())
                    &&& self.log().is_prefix_of(waiter.log())
                    &&& spin_rwlock::write_progress(
                        waiter.log(),
                        self.log().len() as int,
                        Progress::Yield,
                    )
                },
            },
    {
        match self.waiter.resume() {
            Ok(held) => Ok(IntrusiveWriteGuard { value: self.value, held }),
            Err(waiter) => Err(IntrusiveWriteWaiter { value: self.value, waiter }),
        }
    }
}

/// A read lock on a value, held until the guard is dropped.
#[must_use]
pub struct IntrusiveReadGuard<'a, T> {
    value: &'a T,
    held: ReadGuard<'a>,
}

impl<'a, T> IntrusiveReadGuard<'a, T> {
    /// Whether the guard holds its lock. It does until it is dropped.
    pub closed spec fn is_live(self) -> bool {
        self.held.is_live()
    }

    /// The value.
    pub closed spec fn value(self) -> T {
        *self.value
    }

    /// The lock that is held.
    pub closed spec fn lock(self) -> SpinRwLock {
        self.held.lock()
    }

    /// The operations that were made on the lock's word for this guard.
    pub closed spec fn log(self) -> Seq<Event> {
        self.held.log()
    }

    /// How many calls that can change the word were made for this.
    pub closed spec fn permits(self) -> nat {
        self.held.permits()
    }
}

impl<'a, T> Deref for IntrusiveReadGuard<'a, T> {
    type Target = T;

    fn deref(&self) -> (value: &T)
        ensures
            *value == self.value(),
    {
        self.value
    }
}

/// The write lock on a value, held until the guard is dropped.
#[must_use]
pub struct IntrusiveWriteGuard<'a, T> {
    value: &'a T,
    held: WriteGuard<'a>,
}

impl<'a, T> IntrusiveWriteGuard<'a, T> {
    /// Whether the guard holds its lock. It does until it is dropped.
    pub closed spec fn is_live(self) -> bool {
        self.held.is_live()
    }

    /// The value.
    pub closed spec fn value(self) -> T {
        *self.value
    }

    /// The lock that is held.
    pub closed spec fn lock(self) -> SpinRwLock {
        self.held.lock()
    }

    /// The operations that were made on the lock's word for this guard.
    pub closed spec fn log(self) -> Seq<Event> {
        self.held.log()
    }

    /// How many calls that can change the word were made for this.
    pub closed spec fn permits(self) -> nat {
        self.held.permits()
    }
}

impl<'a, T> Deref for IntrusiveWriteGuard<'a, T> {
    type Target = T;

    fn deref(&self) -> (value: &T)
        ensures
            *value == self.value(),
    {
        self.value
    }
}

} // verus!
