use orion::hlc::clamp_millis;
use orion::hlc::current_time_millis;
use orion::hlc::decode_timestamp;
use orion::hlc::encode_timestamp;
use orion::hlc::HybridClock;
use orion::hlc::HybridTimestamp;

#[test]
fn hybrid_clock_is_monotonic_under_rapid_calls() {
    let mut clock = HybridClock::default();
    let first = clock.next();
    let second = clock.next();
    let third = clock.next();

    assert!(first < second);
    assert!(second < third);
}

#[test]
fn hybrid_clock_moves_past_observed_timestamp() {
    let mut clock = HybridClock::default();
    let observed = HybridTimestamp {
        physical_ms: current_time_millis() + 60_000,
        logical: 41,
    };

    let next = clock.next_after(Some(observed));

    assert!(next > observed);
    assert_eq!(next.physical_ms, observed.physical_ms);
    assert_eq!(next.logical, observed.logical + 1);
}

#[test]
fn observe_never_moves_clock_backwards() {
    let mut clock = HybridClock::default();
    let first = clock.next_after(Some(HybridTimestamp {
        physical_ms: current_time_millis() + 60_000,
        logical: 9,
    }));
    clock.observe(HybridTimestamp {
        physical_ms: 1,
        logical: 0,
    });
    let second = clock.next();

    assert!(second > first);
}

#[test]
fn a_clock_advances_by_a_given_time() {
    let mut clock = HybridClock::default();
    assert_eq!(
        clock.advance(None, 50),
        Some(HybridTimestamp { physical_ms: 50, logical: 0 })
    );
    assert_eq!(
        clock.advance(None, 40),
        Some(HybridTimestamp { physical_ms: 50, logical: 1 })
    );
    assert_eq!(
        clock.advance(Some(HybridTimestamp { physical_ms: 70, logical: 7 }), 60),
        Some(HybridTimestamp { physical_ms: 70, logical: 8 })
    );
    assert_eq!(
        clock.advance(Some(HybridTimestamp { physical_ms: 2, logical: 9 }), 71),
        Some(HybridTimestamp { physical_ms: 71, logical: 0 })
    );
}

#[test]
fn a_clock_whose_counter_is_used_up_does_not_advance() {
    let mut clock = HybridClock::default();
    clock.observe(HybridTimestamp { physical_ms: 9, logical: u32::MAX });
    assert_eq!(clock.advance(None, 9), None);
    assert_eq!(
        clock.advance(None, 10),
        Some(HybridTimestamp { physical_ms: 10, logical: 0 })
    );
}

#[test]
fn timestamps_are_ordered_by_time_then_by_counter() {
    let early = HybridTimestamp { physical_ms: 1, logical: 9 };
    let late = HybridTimestamp { physical_ms: 2, logical: 0 };
    assert!(early < late);
    assert!(HybridTimestamp { physical_ms: 2, logical: 1 } > late);
    assert_eq!(HybridTimestamp::default(), HybridTimestamp { physical_ms: 0, logical: 0 });
}

#[test]
fn timestamps_are_stored_and_read_back() {
    let timestamp = HybridTimestamp { physical_ms: 300, logical: 5 };
    let bytes = encode_timestamp(timestamp);
    assert_eq!(bytes, vec![0xac, 0x02, 0x05]);
    assert_eq!(decode_timestamp(&bytes), Ok(timestamp));
    assert!(decode_timestamp(&[0xac]).is_err());
}

const CUT_OFF: &str = "Hit the end of buffer, expected more data";
const TOO_LONG: &str =
    "Found a varint that didn't terminate. Is the usize too big for this platform?";

#[test]
fn numbers_are_read_as_far_as_they_reach() {
    let last = HybridTimestamp { physical_ms: u64::MAX, logical: u32::MAX };
    let mut bytes = vec![0xff; 9];
    bytes.push(1);
    bytes.extend([0xff, 0xff, 0xff, 0xff, 15]);
    assert_eq!(encode_timestamp(last), bytes);
    assert_eq!(decode_timestamp(&bytes), Ok(last));
    bytes.extend([7, 7]);
    assert_eq!(decode_timestamp(&bytes), Ok(last));
    bytes[14] = 16;
    assert_eq!(decode_timestamp(&bytes), Err(TOO_LONG.to_string()));
    bytes[9] = 2;
    assert_eq!(decode_timestamp(&bytes), Err(TOO_LONG.to_string()));

    assert_eq!(decode_timestamp(&[]), Err(CUT_OFF.to_string()));
    assert_eq!(decode_timestamp(&[0xff; 9]), Err(CUT_OFF.to_string()));
    assert_eq!(decode_timestamp(&[0xff; 10]), Err(TOO_LONG.to_string()));
    assert_eq!(decode_timestamp(&[3, 0xff, 0xff, 0xff, 0xff]), Err(CUT_OFF.to_string()));
    assert_eq!(decode_timestamp(&[3, 0xff, 0xff, 0xff, 0xff, 0xff]), Err(TOO_LONG.to_string()));
    let padded = HybridTimestamp { physical_ms: 1, logical: 0 };
    assert_eq!(decode_timestamp(&[0x81, 0x80, 0, 0x80, 0]), Ok(padded));
}

#[test]
fn times_beyond_the_range_are_clamped() {
    assert_eq!(clamp_millis(5), 5);
    assert_eq!(clamp_millis(u64::MAX as u128 + 1), u64::MAX);
}

#[test]
fn the_time_of_day_is_after_the_epoch() {
    assert!(current_time_millis() > 1_600_000_000_000);
    assert!(HybridTimestamp::now().physical_ms > 1_600_000_000_000);
    assert_eq!(HybridTimestamp::now().logical, 0);
}
