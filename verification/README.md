# Intrusive locks

Locks that are contained inside the memory region they protect: for example data in
an `mmap`, where the lock and what it protects live side by side.

`SpinRwLock` is a standalone lock object. It holds no data. `IntrusiveSpinRwLock`
encloses the value to protect, which contains the lock and returns it through
`HasIntrusiveSpinRwLock`.

* Being a spin lock, it is expected to work under low to moderate contention.
* It is meant for threads, not for processes.
* The library spins but does not yield the thread: that is the caller's. `read` and
  `write` return a guard, or, when the thread is to be yielded (after 200 spins, and
  then after every 10 more), a waiter. The caller yields and resumes the waiter, which
  goes on where it was. A waiter of `write` has to be resumed until it gets the lock,
  as a pending writer keeps everyone else out. `read` also returns when as many readers
  as can be counted hold the lock.

## Layout

* `src/word.rs`: the meaning of the 64-bit state word, and the decisions taken on it.
* `src/backoff.rs`: when a waiting thread spins and when it yields.
* `src/state.rs`: the shared word. Its functions call the standard library's atomics
  and record what they did. What is trusted of the atomics stands there too.
* `src/phase.rs`: which operations an acquisition makes, one after the other.
* `src/spin_rwlock.rs`, `src/intrusive.rs`: the locks, their guards and their waiters.
  A guard carries, in proofs only, the operations made for it.
* `src/protocol.rs`: what holds of any number of interleaved acquisitions: writers
  exclude everyone, nobody enters past a pending writer, the word tells who is inside.
* `src/sections.rs`: what this does for the protected data: readers find what the last
  writer left, there is no data race, no update is lost.
* `src/liveness.rs`: a pending writer enters in the end, and nobody is stuck.
* `app/`: blocking calls that yield the thread, and the parts that take `unsafe` code:
  values that are shared between threads and changed through write guards.
