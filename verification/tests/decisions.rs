use intrusivelock::backoff::Backoff;
use intrusivelock::word::{
    claim_holding, claim_pending, claim_read, ReadClaim, READERS_MASK, WRITER_HOLDING, WRITER_MASK,
    WRITER_PENDING,
};

#[test]
fn the_bits_of_the_word() {
    assert_eq!(READERS_MASK, (1u64 << 62) - 1);
    assert_eq!(WRITER_PENDING, 1u64 << 62);
    assert_eq!(WRITER_HOLDING, 1u64 << 63);
    assert_eq!(WRITER_MASK, WRITER_PENDING | WRITER_HOLDING);
}

#[test]
fn a_reader_counts_itself() {
    assert_eq!(claim_read(0), ReadClaim::Enter(1));
    assert_eq!(claim_read(41), ReadClaim::Enter(42));
    assert_eq!(claim_read(READERS_MASK - 1), ReadClaim::Enter(READERS_MASK));
}

#[test]
fn a_reader_stops_at_the_limit() {
    assert_eq!(claim_read(READERS_MASK), ReadClaim::Full);
}

#[test]
fn a_reader_waits_for_writers() {
    assert_eq!(claim_read(WRITER_PENDING), ReadClaim::Blocked);
    assert_eq!(claim_read(WRITER_PENDING | 3), ReadClaim::Blocked);
    assert_eq!(claim_read(WRITER_PENDING | READERS_MASK), ReadClaim::Blocked);
    assert_eq!(claim_read(WRITER_HOLDING), ReadClaim::Blocked);
    assert_eq!(claim_read(WRITER_MASK), ReadClaim::Blocked);
}

#[test]
fn a_writer_announces_itself_over_readers() {
    assert_eq!(claim_pending(0), Some(WRITER_PENDING));
    assert_eq!(claim_pending(7), Some(WRITER_PENDING | 7));
    assert_eq!(claim_pending(WRITER_HOLDING), Some(WRITER_MASK));
    assert_eq!(claim_pending(WRITER_PENDING), None);
    assert_eq!(claim_pending(WRITER_MASK), None);
}

#[test]
fn a_writer_enters_a_drained_lock() {
    assert_eq!(claim_holding(WRITER_PENDING), Some(WRITER_MASK));
    assert_eq!(claim_holding(0), Some(WRITER_HOLDING));
    assert_eq!(claim_holding(WRITER_PENDING | 1), None);
    assert_eq!(claim_holding(WRITER_MASK), None);
    assert_eq!(claim_holding(WRITER_HOLDING), None);
}

#[test]
fn the_backoff_yields_after_200_spins_and_then_every_eleventh_time() {
    let mut backoff = Backoff::new();
    for n in 1..=300u32 {
        assert_eq!(backoff.spin(), n >= 201 && (n - 201) % 11 == 0);
    }
}

#[test]
fn the_backoff_counts_its_spins() {
    let mut backoff = Backoff::new();
    for n in 0..200 {
        assert_eq!(backoff.spins, n);
        assert!(!backoff.spin());
    }
    for _ in 0..5 {
        assert_eq!(backoff.spins, 200);
        assert!(backoff.spin());
        for n in 190..200 {
            assert_eq!(backoff.spins, n);
            assert!(!backoff.spin());
        }
    }
}

#[test]
fn the_backoff_comes_back_from_any_count() {
    let mut backoff = Backoff { spins: u32::MAX };
    assert!(backoff.spin());
    assert_eq!(backoff.spins, 190);
}
