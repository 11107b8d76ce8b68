//! How an acquisition goes about it, step by step.
//!
//! Each function works on the word with the one record that it is given. It has no lock
//! at hand to begin another acquisition with, and no other way to the word: what it does
//! to the word is what it adds to the record.

use super::{Receipt, StateWord};
use crate::backoff::Backoff;
#[allow(unused_imports)]
use crate::phase::{Phase, Turn, Wait};
#[allow(unused_imports)]
use crate::spin_rwlock;
use crate::spin_rwlock::Progress;
#[allow(unused_imports)]
use crate::state;
#[allow(unused_imports)]
use crate::state::{Event, MemoryOrder};
use crate::word::{claim_holding, claim_pending, claim_read, ReadClaim, WRITER_MASK};
use vstd::prelude::*;

verus! {

/// What an acquisition that waits goes by.
pub(crate) struct Waiting {
    /// The word it has last seen.
    seen: u64,
    /// Whether it is to look at the word again.
    reload: bool,
    backoff: Backoff,
}

impl Waiting {
    /// The wait that this is.
    pub(crate) closed spec fn wait(self) -> Wait {
        Wait {
            seen: self.seen,
            spins: self.backoff.spins,
            turn: if self.reload {
                Turn::Reload
            } else {
                Turn::Decide
            },
        }
    }
}

/// Looks at the word, as a blocking read or write does first.
pub(crate) fn look(word: &StateWord, receipt: &mut Receipt) -> (waiting: Waiting)
    requires
        old(receipt).of() == *word,
        old(receipt).accounts_for_all(),
        old(receipt).log().len() == 0,
        old(receipt).start() is ReadStart || old(receipt).start() is WriteStart,
    ensures
        final(receipt).of() == old(receipt).of(),
        final(receipt).start() == old(receipt).start(),
        final(receipt).accounts_for_all(),
        final(receipt).log() == seq![
            Event::Load { order: MemoryOrder::Relaxed, value: waiting.wait().seen },
        ],
        waiting.wait() == Wait::begin(waiting.wait().seen),
        final(receipt).phase() == (if old(receipt).start() is ReadStart {
            Phase::ReadWait(waiting.wait())
        } else {
            Phase::Claiming(waiting.wait())
        }),
{
    let seen: u64 = word.load(receipt, MemoryOrder::Relaxed);
    proof {
        state::operation_moves_on(*old(receipt), *receipt, receipt.log().last());
        assert(receipt.log() =~= seq![
            Event::Load { order: MemoryOrder::Relaxed, value: seen },
        ]);
    }
    Waiting { seen, reload: false, backoff: Backoff::new() }
}

/// Makes one attempt at a read lock.
pub(crate) fn try_to_read(word: &StateWord, receipt: &mut Receipt) -> (acquired: bool)
    requires
        old(receipt).of() == *word,
        old(receipt).accounts_for_all(),
        old(receipt).log().len() == 0,
        old(receipt).start() is TryReadStart,
    ensures
        final(receipt).of() == old(receipt).of(),
        final(receipt).start() == old(receipt).start(),
        final(receipt).accounts_for_all(),
        spin_rwlock::try_read_outcome(final(receipt).log(), acquired),
{
    let s: u64 = word.load(receipt, MemoryOrder::Relaxed);
    proof {
        state::operation_moves_on(*old(receipt), *receipt, receipt.log().last());
    }
    match claim_read(s) {
        ReadClaim::Enter(new) => {
            let ghost before = *receipt;
            let outcome = word.compare_exchange(
                receipt,
                s,
                new,
                MemoryOrder::Acquire,
                MemoryOrder::Relaxed,
            );
            proof {
                state::operation_moves_on(before, *receipt, receipt.log().last());
            }
            outcome.is_ok()
        },
        _ => false,
    }
}

/// Makes one attempt at the write lock.
pub(crate) fn try_to_write(word: &StateWord, receipt: &mut Receipt) -> (acquired: bool)
    requires
        old(receipt).of() == *word,
        old(receipt).accounts_for_all(),
        old(receipt).log().len() == 0,
        old(receipt).start() is TryWriteStart,
    ensures
        final(receipt).of() == old(receipt).of(),
        final(receipt).start() == old(receipt).start(),
        final(receipt).accounts_for_all(),
        spin_rwlock::try_write_outcome(final(receipt).log(), acquired),
    opens_invariants none
{
    let outcome = word.compare_exchange(
        receipt,
        0,
        WRITER_MASK,
        MemoryOrder::Acquire,
        MemoryOrder::Relaxed,
    );
    proof {
        state::operation_moves_on(*old(receipt), *receipt, receipt.log().last());
    }
    match outcome {
        Ok(_) => true,
        Err(_) => false,
    }
}

/// Waits for a read lock, until it is acquired or the thread is to be yielded.
pub(crate) fn wait_to_read(
    word: &StateWord,
    receipt: &mut Receipt,
    waiting: &mut Waiting,
) -> (progress: Progress)
    requires
        old(receipt).of() == *word,
        old(receipt).accounts_for_all(),
        old(receipt).start() == Phase::ReadStart,
        old(receipt).phase() == Phase::ReadWait(old(waiting).wait()),
    ensures
        final(receipt).of() == old(receipt).of(),
        final(receipt).start() == old(receipt).start(),
        final(receipt).accounts_for_all(),
        old(receipt).log().is_prefix_of(final(receipt).log()),
        spin_rwlock::read_progress(
            final(receipt).log(),
            old(receipt).log().len() as int,
            progress,
        ),
        progress is Yield ==> final(receipt).phase() == Phase::ReadWait(final(waiting).wait()),
{
    let ghost begun = *receipt;
    let mut s: u64 = waiting.seen;
    let mut reload: bool = waiting.reload;
    let mut backoff = Backoff { spins: waiting.backoff.spins };
    loop
        invariant
            receipt.of() == *word,
            receipt.accounts_for_all(),
            receipt.start() == Phase::ReadStart,
            receipt.phase() == Phase::ReadWait((Waiting { seen: s, reload, backoff }).wait()),
            begun == *old(receipt),
            begun.of() == *word,
            begun.start() == receipt.start(),
            begun.log().is_prefix_of(receipt.log()),
            spin_rwlock::no_yield(
                receipt.log(),
                begun.log().len() as int,
                receipt.log().len() as int,
            ),
        decreases 200 - backoff.spins,
    {
        if reload {
            let ghost before = *receipt;
            proof {
                use_type_invariant(&*receipt);
            }
            s = word.load(receipt, MemoryOrder::Relaxed);
            reload = false;
            proof {
                state::operation_moves_on(before, *receipt, receipt.log().last());
            }
        }
        let ghost before = *receipt;
        proof {
            use_type_invariant(&*receipt);
        }
        match claim_read(s) {
            ReadClaim::Blocked => {
                let yielding: bool = receipt.pause(&mut backoff);
                reload = true;
                proof {
                    state::operation_moves_on(before, *receipt, receipt.log().last());
                }
                if yielding {
                    *waiting = Waiting { seen: s, reload, backoff };
                    return Progress::Yield;
                }
            },
            ReadClaim::Full => {
                return Progress::Overflow;
            },
            ReadClaim::Enter(new) => {
                let outcome = word.compare_exchange_weak(
                    receipt,
                    s,
                    new,
                    MemoryOrder::Acquire,
                    MemoryOrder::Relaxed,
                );
                proof {
                    state::operation_moves_on(before, *receipt, receipt.log().last());
                }
                match outcome {
                    Ok(_) => {
                        return Progress::Acquired;
                    },
                    Err(actual) => {
                        // Act on the word that was found, without loading it again.
                        s = actual;
                        let ghost missed = *receipt;
                        proof {
                            use_type_invariant(&*receipt);
                        }
                        let yielding: bool = receipt.pause(&mut backoff);
                        proof {
                            state::operation_moves_on(missed, *receipt, receipt.log().last());
                        }
                        if yielding {
                            *waiting = Waiting { seen: s, reload, backoff };
                            return Progress::Yield;
                        }
                    },
                }
            },
        }
    }
}

/// Waits for the write lock, first to announce the writer as the only pending one, then
/// for the lock to drain, until the lock is acquired or the thread is to be yielded.
pub(crate) fn wait_to_write(
    word: &StateWord,
    receipt: &mut Receipt,
    waiting: &mut Waiting,
    announced: &mut bool,
) -> (progress: Progress)
    requires
        old(receipt).of() == *word,
        old(receipt).accounts_for_all(),
        old(receipt).start() == Phase::WriteStart,
        old(receipt).phase() == (if *old(announced) {
            Phase::Draining(old(waiting).wait())
        } else {
            Phase::Claiming(old(waiting).wait())
        }),
    ensures
        final(receipt).of() == old(receipt).of(),
        final(receipt).start() == old(receipt).start(),
        final(receipt).accounts_for_all(),
        old(receipt).log().is_prefix_of(final(receipt).log()),
        spin_rwlock::write_progress(
            final(receipt).log(),
            old(receipt).log().len() as int,
            progress,
        ),
        progress is Yield ==> final(receipt).phase() == (if *final(announced) {
            Phase::Draining(final(waiting).wait())
        } else {
            Phase::Claiming(final(waiting).wait())
        }),
{
    let ghost begun = *receipt;
    let mut s: u64 = waiting.seen;
    let mut reload: bool = waiting.reload;
    let mut backoff = Backoff { spins: waiting.backoff.spins };

    // Announce the writer: only one is pending at a time.
    while !*announced
        invariant
            receipt.of() == *word,
            receipt.accounts_for_all(),
            receipt.start() == Phase::WriteStart,
            receipt.phase() == ({
                let wait = (Waiting { seen: s, reload, backoff }).wait();
                if *announced {
                    Phase::Draining(wait)
                } else {
                    Phase::Claiming(wait)
                }
            }),
            begun == *old(receipt),
            begun.of() == *word,
            begun.start() == receipt.start(),
            begun.log().is_prefix_of(receipt.log()),
            spin_rwlock::no_yield(
                receipt.log(),
                begun.log().len() as int,
                receipt.log().len() as int,
            ),
        decreases
            if *announced {
                0int
            } else {
                1int
            },
            200 - backoff.spins,
    {
        if reload {
            let ghost before = *receipt;
            proof {
                use_type_invariant(&*receipt);
            }
            s = word.load(receipt, MemoryOrder::Relaxed);
            reload = false;
            proof {
                state::operation_moves_on(before, *receipt, receipt.log().last());
            }
        }
        let ghost before = *receipt;
        proof {
            use_type_invariant(&*receipt);
        }
        match claim_pending(s) {
            None => {
                let yielding: bool = receipt.pause(&mut backoff);
                reload = true;
                proof {
                    state::operation_moves_on(before, *receipt, receipt.log().last());
                }
                if yielding {
                    *waiting = Waiting { seen: s, reload, backoff };
                    return Progress::Yield;
                }
            },
            Some(new) => {
                let outcome = word.compare_exchange_weak(
                    receipt,
                    s,
                    new,
                    MemoryOrder::Relaxed,
                    MemoryOrder::Relaxed,
                );
                proof {
                    state::operation_moves_on(before, *receipt, receipt.log().last());
                }
                match outcome {
                    Ok(_) => {
                        *announced = true;
                        s = new;
                        // A fresh backoff for the second wait.
                        backoff = Backoff::new();
                    },
                    Err(actual) => {
                        // Act on the word that was found, without loading it again.
                        s = actual;
                        let ghost missed = *receipt;
                        proof {
                            use_type_invariant(&*receipt);
                        }
                        let yielding: bool = receipt.pause(&mut backoff);
                        proof {
                            state::operation_moves_on(missed, *receipt, receipt.log().last());
                        }
                        if yielding {
                            *waiting = Waiting { seen: s, reload, backoff };
                            return Progress::Yield;
                        }
                    },
                }
            },
        }
    }

    // Wait for the lock to drain, then enter.
    loop
        invariant
            *announced,
            receipt.of() == *word,
            receipt.accounts_for_all(),
            receipt.start() == Phase::WriteStart,
            receipt.phase() == Phase::Draining((Waiting { seen: s, reload, backoff }).wait()),
            begun == *old(receipt),
            begun.of() == *word,
            begun.start() == receipt.start(),
            begun.log().is_prefix_of(receipt.log()),
            spin_rwlock::no_yield(
                receipt.log(),
                begun.log().len() as int,
                receipt.log().len() as int,
            ),
        decreases 200 - backoff.spins,
    {
        if reload {
            let ghost before = *receipt;
            proof {
                use_type_invariant(&*receipt);
            }
            s = word.load(receipt, MemoryOrder::Relaxed);
            reload = false;
            proof {
                state::operation_moves_on(before, *receipt, receipt.log().last());
            }
        }
        let ghost before = *receipt;
        proof {
            use_type_invariant(&*receipt);
        }
        match claim_holding(s) {
            None => {
                let yielding: bool = receipt.pause(&mut backoff);
                reload = true;
                proof {
                    state::operation_moves_on(before, *receipt, receipt.log().last());
                }
                if yielding {
                    *waiting = Waiting { seen: s, reload, backoff };
                    return Progress::Yield;
                }
            },
            Some(new) => {
                let outcome = word.compare_exchange_weak(
                    receipt,
                    s,
                    new,
                    MemoryOrder::Acquire,
                    MemoryOrder::Relaxed,
                );
                proof {
                    state::operation_moves_on(before, *receipt, receipt.log().last());
                }
                match outcome {
                    Ok(_) => {
                        return Progress::Acquired;
                    },
                    Err(actual) => {
                        s = actual;
                        let ghost missed = *receipt;
                        proof {
                            use_type_invariant(&*receipt);
                        }
                        let yielding: bool = receipt.pause(&mut backoff);
                        proof {
                            state::operation_moves_on(missed, *receipt, receipt.log().last());
                        }
                        if yielding {
                            *waiting = Waiting { seen: s, reload, backoff };
                            return Progress::Yield;
                        }
                    },
                }
            },
        }
    }
}

} // verus!
