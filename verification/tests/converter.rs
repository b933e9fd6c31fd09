use api_public::error::ApiError;
use api_public::ident::Digest;
use api_public::slot::slot_of;
use api_public::slot::time_of;
use api_public::slot::Slot;

#[test]
fn slot_of_after_genesis_counts_slots_across_threads() {
    assert_eq!(slot_of(1025, 1000, 10, 2), Ok(Slot { period: 1, thread: 0 }));
}

#[test]
fn slot_of_before_genesis_is_invalid_time() {
    assert_eq!(slot_of(995, 1000, 10, 2), Err(ApiError::InvalidTime));
}

#[test]
fn slot_of_at_genesis_is_the_first_slot() {
    assert_eq!(slot_of(1000, 1000, 10, 2), Ok(Slot { period: 0, thread: 0 }));
    assert_eq!(slot_of(1009, 1000, 10, 2), Ok(Slot { period: 0, thread: 0 }));
    assert_eq!(slot_of(1010, 1000, 10, 2), Ok(Slot { period: 0, thread: 1 }));
    assert_eq!(slot_of(1019, 1000, 10, 2), Ok(Slot { period: 0, thread: 1 }));
    assert_eq!(slot_of(1020, 1000, 10, 2), Ok(Slot { period: 1, thread: 0 }));
}

#[test]
fn slot_of_with_one_thread_counts_periods() {
    assert_eq!(slot_of(35, 0, 10, 1), Ok(Slot { period: 3, thread: 0 }));
}

#[test]
fn slot_of_the_largest_timestamp() {
    assert_eq!(
        slot_of(u64::MAX, 0, 1, 255),
        Ok(Slot { period: u64::MAX / 255, thread: (u64::MAX % 255) as u8 })
    );
}

#[test]
fn time_of_is_the_start_of_the_slot() {
    assert_eq!(time_of(Slot { period: 0, thread: 0 }, 1000, 10, 2), 1000);
    assert_eq!(time_of(Slot { period: 0, thread: 1 }, 1000, 10, 2), 1010);
    assert_eq!(time_of(Slot { period: 1, thread: 0 }, 1000, 10, 2), 1020);
    assert_eq!(time_of(Slot { period: 7, thread: 1 }, 1000, 10, 2), 1150);
}

#[test]
fn time_of_saturates() {
    assert_eq!(time_of(Slot { period: u64::MAX, thread: 0 }, 1000, 10, 2), u64::MAX);
    assert_eq!(time_of(Slot { period: 1, thread: 0 }, 1, u64::MAX, 1), u64::MAX);
    assert_eq!(time_of(Slot { period: 1, thread: 0 }, 0, u64::MAX, 1), u64::MAX);
    assert_eq!(time_of(Slot { period: u64::MAX / 2, thread: 1 }, 0, 1, 2), u64::MAX);
}

#[test]
fn time_of_with_slots_of_no_length_is_genesis() {
    assert_eq!(time_of(Slot { period: u64::MAX, thread: 200 }, 77, 0, 255), 77);
}

#[test]
fn time_of_grows_with_the_period() {
    let mut last = 0u64;
    for period in 0..50u64 {
        let t = time_of(Slot { period, thread: 1 }, 1000, 10, 2);
        assert!(last <= t);
        last = t;
    }
}

#[test]
fn slot_of_inverts_time_of() {
    for period in 0..20u64 {
        for thread in 0..3u8 {
            let slot = Slot { period, thread };
            let start = time_of(slot, 500, 7, 3);
            assert_eq!(slot_of(start, 500, 7, 3), Ok(slot));
            assert_eq!(slot_of(start + 6, 500, 7, 3), Ok(slot));
        }
    }
}

#[test]
fn a_timestamp_lies_within_its_slot() {
    for timestamp in 500..700u64 {
        let slot = slot_of(timestamp, 500, 7, 3).unwrap();
        let start = time_of(slot, 500, 7, 3);
        assert!(slot.thread < 3);
        assert!(start <= timestamp && timestamp < start + 7);
    }
}

#[test]
fn slots_are_ordered_by_period_then_thread() {
    let a = Slot { period: 1, thread: 1 };
    let b = Slot { period: 2, thread: 0 };
    let c = Slot { period: 2, thread: 1 };
    assert!(a.lt(&b));
    assert!(b.lt(&c));
    assert!(!c.lt(&b));
    assert!(!a.lt(&a));
}

#[test]
fn digests_are_ordered_as_numbers() {
    let small = Digest { hi: 0, lo: u128::MAX };
    let large = Digest { hi: 1, lo: 0 };
    assert!(small.lt(&large));
    assert!(!large.lt(&small));
    assert!(!small.lt(&small));
    assert!(Digest { hi: 3, lo: 4 }.lt(&Digest { hi: 3, lo: 5 }));
}

#[test]
fn every_failure_has_its_code_and_message() {
    let all = [
        ApiError::InvalidTime,
        ApiError::InvalidRange,
        ApiError::NotFound,
        ApiError::Unavailable,
        ApiError::ValidationError,
    ];
    let codes: Vec<i64> = all.iter().map(|e| e.code()).collect();
    assert_eq!(codes, vec![1, 2, 3, 4, 5]);
    assert_eq!(ApiError::InvalidTime.message(), "the timestamp lies before genesis");
    assert_eq!(
        ApiError::InvalidRange.message(),
        "the start of the interval lies after its end"
    );
    assert_eq!(ApiError::NotFound.message(), "no block has this identifier");
    assert_eq!(ApiError::Unavailable.message(), "the node has no snapshot of its state yet");
    assert_eq!(ApiError::ValidationError.message(), "the operation is malformed");
}
