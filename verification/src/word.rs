//! The state word of the lock: what its bits mean, and which words may follow which.

use vstd::prelude::*;

verus! {

/// The low 62 bits count the readers that hold the lock.
pub const READERS_MASK: u64 = 0x3fff_ffff_ffff_ffff;

/// Bit 62: a writer is waiting for the readers to leave, or holds the lock.
pub const WRITER_PENDING: u64 = 0x4000_0000_0000_0000;

/// Bit 63: a writer holds the lock.
pub const WRITER_HOLDING: u64 = 0x8000_0000_0000_0000;

/// Both writer bits.
pub const WRITER_MASK: u64 = 0xc000_0000_0000_0000;

/// The meaning of a state word.
pub struct LockWord {
    /// How many readers hold the lock.
    pub readers: nat,
    /// A writer has announced itself; no reader and no further writer may enter.
    pub pending: bool,
    /// A writer is inside.
    pub holding: bool,
}

impl LockWord {
    /// The readers fit the bits that count them.
    pub open spec fn valid(self) -> bool {
        self.readers <= READERS_MASK
    }

    /// No writer has announced itself or is inside.
    pub open spec fn no_writer(self) -> bool {
        !self.pending && !self.holding
    }
}

/// What the word `s` says.
pub open spec fn decode(s: u64) -> LockWord {
    LockWord {
        readers: (s % WRITER_PENDING) as nat,
        pending: (s / WRITER_PENDING) % 2 == 1,
        holding: s / WRITER_HOLDING == 1,
    }
}

/// The word that says `w`.
pub open spec fn encode(w: LockWord) -> u64 {
    (w.readers + (if w.pending {
        WRITER_PENDING as nat
    } else {
        0
    }) + (if w.holding {
        WRITER_HOLDING as nat
    } else {
        0
    })) as u64
}

/// Every word says something, and it is the only word that says it.
pub proof fn encode_decode(s: u64)
    ensures
        decode(s).valid(),
        encode(decode(s)) == s,
{
}

/// Every valid meaning is that of its word.
pub proof fn decode_encode(w: LockWord)
    requires
        w.valid(),
    ensures
        decode(encode(w)) == w,
{
}

/// What the masks pick out of a word.
proof fn masks_decode(s: u64)
    ensures
        s & READERS_MASK == decode(s).readers,
        (s & WRITER_PENDING != 0) == decode(s).pending,
        (s & WRITER_HOLDING != 0) == decode(s).holding,
        (s & WRITER_MASK != 0) == (decode(s).pending || decode(s).holding),
{
    assert(s & READERS_MASK == s % WRITER_PENDING) by (bit_vector);
    assert((s & WRITER_PENDING != 0) == ((s / WRITER_PENDING) % 2 == 1)) by (bit_vector);
    assert((s & WRITER_HOLDING != 0) == (s / WRITER_HOLDING == 1)) by (bit_vector);
    assert((s & WRITER_MASK != 0) == (s & WRITER_PENDING != 0 || s & WRITER_HOLDING != 0))
        by (bit_vector);
}

/// What a reader may do with a word it has seen.
#[derive(Clone, Copy, Debug, PartialEq, Eq, Structural)]
pub enum ReadClaim {
    /// A writer has announced itself or is inside: wait.
    Blocked,
    /// The count of readers is at its limit.
    Full,
    /// Enter by replacing the word with this one.
    Enter(u64),
}

/// A reader waits for writers, stops at the limit, and otherwise enters by counting
/// itself and changing nothing else.
pub open spec fn spec_claim_read(s: u64) -> ReadClaim {
    let w = decode(s);
    if !w.no_writer() {
        ReadClaim::Blocked
    } else if w.readers == READERS_MASK {
        ReadClaim::Full
    } else {
        ReadClaim::Enter(encode(LockWord { readers: w.readers + 1, ..w }))
    }
}

/// Decides what a reader does that has seen `s`.
pub fn claim_read(s: u64) -> (claim: ReadClaim)
    ensures
        claim == spec_claim_read(s),
        s < 0x3fff_ffff_ffff_ffff ==> claim == ReadClaim::Enter((s + 1) as u64),
        s == 0x3fff_ffff_ffff_ffff ==> claim == ReadClaim::Full,
        s > 0x3fff_ffff_ffff_ffff ==> claim == ReadClaim::Blocked,
{
    proof {
        masks_decode(s);
    }
    if (s & WRITER_MASK) != 0 {
        return ReadClaim::Blocked;
    }
    let readers: u64 = s & READERS_MASK;
    if readers == READERS_MASK {
        return ReadClaim::Full;
    }
    let new: u64 = (s & !READERS_MASK) | (readers + 1);
    assert(new == s + 1) by (bit_vector)
        requires
            readers == s & READERS_MASK,
            readers != READERS_MASK,
            new == (s & !READERS_MASK) | ((readers + 1) as u64),
    ;
    ReadClaim::Enter(new)
}

/// A writer announces itself where no other writer has.
pub open spec fn spec_claim_pending(s: u64) -> Option<u64> {
    let w = decode(s);
    if w.pending {
        None
    } else {
        Some(encode(LockWord { pending: true, ..w }))
    }
}

/// Decides how a writer announces itself that has seen `s`: the word to replace `s`
/// with, or `None` while another writer is pending.
pub fn claim_pending(s: u64) -> (claim: Option<u64>)
    ensures
        claim == spec_claim_pending(s),
        (s / 0x4000_0000_0000_0000) % 2 == 0 ==> claim == Some((s + 0x4000_0000_0000_0000) as u64),
        (s / 0x4000_0000_0000_0000) % 2 == 1 ==> claim is None,
{
    proof {
        masks_decode(s);
    }
    if (s & WRITER_PENDING) != 0 {
        return None;
    }
    assert(s | WRITER_PENDING == s + WRITER_PENDING) by (bit_vector)
        requires
            s & WRITER_PENDING == 0,
    ;
    Some(s | WRITER_PENDING)
}

/// A writer enters once there are no readers and no writer is inside.
pub open spec fn spec_claim_holding(s: u64) -> Option<u64> {
    let w = decode(s);
    if w.readers != 0 || w.holding {
        None
    } else {
        Some(encode(LockWord { holding: true, ..w }))
    }
}

/// Decides how an announced writer enters that has seen `s`: the word to replace `s`
/// with, or `None` while readers or another writer are inside.
pub fn claim_holding(s: u64) -> (claim: Option<u64>)
    ensures
        claim == spec_claim_holding(s),
        s == 0 || s == 0x4000_0000_0000_0000 ==> claim == Some((s + 0x8000_0000_0000_0000) as u64),
        s != 0 && s != 0x4000_0000_0000_0000 ==> claim is None,
{
    proof {
        masks_decode(s);
    }
    if (s & READERS_MASK) != 0 || (s & WRITER_HOLDING) != 0 {
        return None;
    }
    assert(s | WRITER_HOLDING == s + WRITER_HOLDING) by (bit_vector)
        requires
            s & WRITER_HOLDING == 0,
    ;
    Some(s | WRITER_HOLDING)
}

/// Taking one from a word that counts a reader uncounts that reader and changes
/// nothing else.
pub proof fn leaving_uncounts_a_reader(s: u64)
    requires
        decode(s).readers > 0,
    ensures
        s > 0,
        decode((s - 1) as u64) == (LockWord {
            readers: (decode(s).readers - 1) as nat,
            ..decode(s)
        }),
{
}

/// Clearing the writer bits leaves the readers as they are.
pub proof fn clearing_writer_mask(s: u64)
    ensures
        decode(s & !WRITER_MASK) == (LockWord { pending: false, holding: false, ..decode(s) }),
{
    assert(s & !WRITER_MASK == s % WRITER_PENDING) by (bit_vector);
}

/// A writer that announces itself, enters and leaves restores the word.
pub proof fn unlocking_undoes_writing(s: u64)
    requires
        spec_claim_pending(s) is Some,
        spec_claim_holding(spec_claim_pending(s)->0) is Some,
    ensures
        spec_claim_holding(spec_claim_pending(s)->0)->0 & !WRITER_MASK == s,
{
    let w = decode(s);
    decode_encode(LockWord { pending: true, ..w });
    encode_decode(s);
    assert(WRITER_MASK & !WRITER_MASK == 0) by (bit_vector);
}

} // verus!
