use intrusivelock::spin_rwlock::{
    Blocked, HasIntrusiveSpinRwLock, IntrusiveSpinRwLock, ReadGuard, ReadWaiter, SpinRwLock,
    WriteGuard,
};
use std::cell::Cell;

fn reader(lock: &SpinRwLock) -> ReadGuard<'_> {
    lock.read().ok().expect("should succeed")
}

fn writer(lock: &SpinRwLock) -> WriteGuard<'_> {
    lock.write().ok().expect("should succeed")
}

fn waiting<'a>(result: Result<ReadGuard<'a>, Blocked<ReadWaiter<'a>>>) -> ReadWaiter<'a> {
    match result {
        Err(Blocked::Yield(waiter)) => waiter,
        Err(Blocked::Overflow(_)) => panic!("the lock is not full"),
        Ok(_) => panic!("the lock is not free"),
    }
}

#[derive(Default)]
struct TestData {
    _lock: SpinRwLock,
    value: Cell<u64>,
}

impl HasIntrusiveSpinRwLock for TestData {
    fn lock(&self) -> &SpinRwLock {
        &self._lock
    }
}

type ProtectedTestData = IntrusiveSpinRwLock<TestData>;

#[test]
fn uncontended_read_write() {
    let lock = SpinRwLock::new();

    // Write then read.
    {
        let _wg = writer(&lock);
    }
    {
        let _rg = reader(&lock);
    }

    // Several readers on one thread.
    {
        let _r1 = reader(&lock);
        let _r2 = reader(&lock);
        let _r3 = reader(&lock);
    }
}

#[test]
fn drop_read_then_write_no_deadlock() {
    let lock = SpinRwLock::new();

    let _rg = reader(&lock);
    drop(_rg);
    let _wg = writer(&lock);
    drop(_wg);
    let _rg2 = reader(&lock);
}

#[test]
fn try_read_succeeds_when_uncontended() {
    let lock = SpinRwLock::new();
    assert!(lock.try_read().is_some());
}

#[test]
fn try_write_succeeds_when_uncontended() {
    let lock = SpinRwLock::new();
    assert!(lock.try_write().is_some());
}

#[test]
fn try_read_succeeds_with_existing_readers() {
    let lock = SpinRwLock::new();
    let _r1 = reader(&lock);
    assert!(lock.try_read().is_some());
}

#[test]
fn try_read_fails_when_writer_holds() {
    let lock = SpinRwLock::new();
    let _wg = writer(&lock);
    assert!(lock.try_read().is_none());
}

#[test]
fn try_write_fails_when_reader_holds() {
    let lock = SpinRwLock::new();
    let _rg = reader(&lock);
    assert!(lock.try_write().is_none());
}

#[test]
fn try_write_fails_when_writer_holds() {
    let lock = SpinRwLock::new();
    let _wg = writer(&lock);
    assert!(lock.try_write().is_none());
}

#[test]
fn try_write_succeeds_after_guard_dropped() {
    let lock = SpinRwLock::new();
    let rg = reader(&lock);
    assert!(lock.try_write().is_none());
    drop(rg);
    assert!(lock.try_write().is_some());
}

#[test]
fn intrusive_basic_read_write() {
    let data = ProtectedTestData::default();

    data.write().ok().unwrap().value.set(42);
    assert_eq!(data.read().ok().unwrap().value.get(), 42);

    let wg = data.write().ok().unwrap();
    wg.value.set(wg.value.get() + 8);
    drop(wg);
    assert_eq!(data.read().ok().unwrap().value.get(), 50);
}

#[test]
fn intrusive_try_read_write() {
    let data = ProtectedTestData::default();

    // try_write on uncontended
    {
        let wg = data.try_write().expect("should succeed");
        wg.value.set(77);
    }

    // try_read sees the write
    {
        let rg = data.try_read().expect("should succeed");
        assert_eq!(rg.value.get(), 77);
    }

    // try_write fails while reader holds
    let rg = data.read().ok().unwrap();
    assert!(data.try_write().is_none());
    drop(rg);

    // try_read fails while writer holds
    let wg = data.write().ok().unwrap();
    assert!(data.try_read().is_none());
    drop(wg);
}

#[test]
fn intrusive_new_keeps_the_value() {
    let data = ProtectedTestData::new(TestData { _lock: SpinRwLock::new(), value: Cell::new(999) });
    assert_eq!(data.read().ok().unwrap().value.get(), 999);
}

#[derive(Default)]
struct CacheLine {
    val2: Cell<u128>,
    val1: Cell<u64>,
    _lock: SpinRwLock,
    val3: Cell<[u8; 32]>,
}

impl HasIntrusiveSpinRwLock for CacheLine {
    fn lock(&self) -> &SpinRwLock {
        &self._lock
    }
}

#[test]
fn a_read_gives_back_what_was_written() {
    let cache_line = IntrusiveSpinRwLock::new(CacheLine::default());

    cache_line.write().ok().unwrap().val2.set(12345);
    assert_eq!(cache_line.read().ok().unwrap().val2.get(), 12345);
    assert_eq!(cache_line.read().ok().unwrap().val1.get(), 0);
    assert_eq!(cache_line.read().ok().unwrap().val3.get(), [0u8; 32]);
}

#[test]
fn the_default_lock_is_free() {
    let lock = SpinRwLock::default();
    assert!(lock.try_write().is_some());
    assert!(lock.try_read().is_some());
}

#[test]
fn a_failed_attempt_leaves_the_lock_alone() {
    let lock = SpinRwLock::new();
    let rg = reader(&lock);
    assert!(lock._try_write().is_err());
    let r2 = lock._try_read().ok().unwrap();
    drop(rg);
    assert!(lock.try_write().is_none());
    drop(r2);
    let wg = lock._try_write().ok().unwrap();
    assert!(lock._try_read().is_err());
    assert!(lock._try_write().is_err());
    drop(wg);
    assert!(lock.try_write().is_some());
}

#[test]
fn a_read_behind_a_writer_waits_and_is_resumed() {
    let lock = SpinRwLock::new();
    let wg = writer(&lock);
    let waiter = waiting(lock.read());
    let waiter = waiting(waiter.resume());
    drop(wg);
    let rg = waiter.resume().ok().expect("should succeed");
    assert!(lock.try_read().is_some());
    assert!(lock.try_write().is_none());
    drop(rg);
    assert!(lock.try_write().is_some());
}

#[test]
fn a_read_that_is_not_resumed_leaves_nothing_behind() {
    let lock = SpinRwLock::new();
    let wg = writer(&lock);
    drop(waiting(lock.read()));
    drop(wg);
    assert!(lock.try_write().is_some());
}

#[test]
fn a_pending_writer_keeps_new_readers_out() {
    let lock = SpinRwLock::new();
    let rg = reader(&lock);

    // The writer announces itself and waits for the reader.
    let pending = lock.write().err().expect("a reader is inside");

    // Nobody gets in meanwhile.
    let second = waiting(lock.read());
    assert!(lock.try_read().is_none());
    assert!(lock.try_write().is_none());
    let other = lock.write().err().expect("a writer is pending");
    let pending = pending.resume().err().expect("a reader is inside");

    // The first reader leaves: the writer enters, before all others.
    drop(rg);
    let second = waiting(second.resume());
    let other = other.resume().err().expect("a writer is pending");
    let wg = pending.resume().ok().expect("should succeed");
    assert!(lock.try_read().is_none());
    let second = waiting(second.resume());

    // Then the others get in.
    drop(wg);
    let rg = second.resume().ok().expect("should succeed");
    let other = other.resume().err().expect("a reader is inside");
    drop(rg);
    drop(other.resume().ok().expect("should succeed"));
    assert!(lock.try_write().is_some());
}

#[test]
fn intrusive_waits_are_resumed() {
    let data = ProtectedTestData::default();

    let rg = data.read().ok().unwrap();
    let pending = data.write().err().expect("a reader is inside");
    let second = match data.read() {
        Err(Blocked::Yield(waiter)) => waiter,
        _ => panic!("a writer is pending"),
    };
    drop(rg);

    let wg = pending.resume().ok().expect("should succeed");
    wg.value.set(7);
    drop(wg);

    let rg = second.resume().ok().expect("should succeed");
    assert_eq!(rg.value.get(), 7);
}

#[test]
fn many_readers_hold_at_once() {
    let lock = SpinRwLock::new();
    let mut guards = Vec::new();
    for _ in 0..50 {
        guards.push(reader(&lock));
    }
    for _ in 0..50 {
        assert!(lock.try_write().is_none());
        guards.pop();
    }
    assert!(lock.try_write().is_some());
}
