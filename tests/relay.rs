use apy_oracle::{
    combine_readings, decode_fixed, decode_reading, encode_fixed, should_publish, Action,
    ApiError, AprReport, EncodeError, FetchError, PublishError, ReportFailure, SkipReason,
    SyncLoop, DEFAULT_EPSILON, FIXED_ONE,
};

const THREE_PERCENT: u128 = 30_000_000_000_000_000;
const FOUR_PERCENT: u128 = 40_000_000_000_000_000;

fn relay_at(published_text: &str) -> SyncLoop {
    let mut relay = SyncLoop::new(DEFAULT_EPSILON);
    let v = decode_reading(published_text).unwrap();
    assert_eq!(relay.on_reading(Ok(v)), Action::Publish(v));
    relay.on_publish_outcome(Ok(()));
    assert_eq!(relay.published(), v);
    relay
}

#[test]
fn cold_start_publishes_first_reading() {
    let mut relay = SyncLoop::new(DEFAULT_EPSILON);
    assert_eq!(relay.published(), 0);
    let v = decode_reading("0.03").unwrap();
    assert_eq!(v, THREE_PERCENT);
    assert_eq!(relay.on_reading(Ok(v)), Action::Publish(THREE_PERCENT));
    relay.on_publish_outcome(Ok(()));
    assert_eq!(relay.published(), THREE_PERCENT);
    assert_eq!(relay.in_flight(), None);
}

#[test]
fn jitter_below_epsilon_is_not_published() {
    let mut relay = relay_at("0.03");
    let v = decode_reading("0.030000000005").unwrap();
    assert_eq!(v, 30_000_000_005_000_000);
    assert_eq!(relay.on_reading(Ok(v)), Action::Skip(SkipReason::Unchanged));
    assert_eq!(relay.published(), THREE_PERCENT);
    assert_eq!(relay.in_flight(), None);
}

#[test]
fn confirmation_timeout_keeps_state_and_retries() {
    let mut relay = relay_at("0.03");
    let v = decode_reading("0.04").unwrap();
    assert_eq!(v, FOUR_PERCENT);
    assert_eq!(relay.on_reading(Ok(v)), Action::Publish(FOUR_PERCENT));
    relay.on_publish_outcome(Err(PublishError::ConfirmationTimeout));
    assert_eq!(relay.published(), THREE_PERCENT);
    assert_eq!(relay.in_flight(), None);
    assert_eq!(relay.on_reading(Ok(v)), Action::Publish(FOUR_PERCENT));
    relay.on_publish_outcome(Ok(()));
    assert_eq!(relay.published(), FOUR_PERCENT);
}

#[test]
fn within_tolerance_changes_nothing() {
    let mut relay = relay_at("0.03");
    let at_edge = THREE_PERCENT + DEFAULT_EPSILON;
    assert_eq!(relay.on_reading(Ok(at_edge)), Action::Skip(SkipReason::Unchanged));
    assert_eq!(relay.on_reading(Ok(THREE_PERCENT - DEFAULT_EPSILON)), Action::Skip(SkipReason::Unchanged));
    assert_eq!(relay.published(), THREE_PERCENT);
    assert_eq!(relay.in_flight(), None);
}

#[test]
fn confirmed_publication_is_recorded_once() {
    let mut relay = relay_at("0.03");
    let past_edge = THREE_PERCENT + DEFAULT_EPSILON + 1;
    assert_eq!(relay.on_reading(Ok(past_edge)), Action::Publish(past_edge));
    relay.on_publish_outcome(Ok(()));
    assert_eq!(relay.published(), past_edge);
    relay.on_publish_outcome(Ok(()));
    assert_eq!(relay.published(), past_edge);
    assert_eq!(relay.on_reading(Ok(past_edge)), Action::Skip(SkipReason::Unchanged));
}

#[test]
fn every_publish_error_keeps_state() {
    for e in [PublishError::Rejected, PublishError::ConfirmationTimeout, PublishError::EncodingOverflow] {
        let mut relay = relay_at("0.03");
        assert_eq!(relay.on_reading(Ok(FOUR_PERCENT)), Action::Publish(FOUR_PERCENT));
        relay.on_publish_outcome(Err(e));
        assert_eq!(relay.published(), THREE_PERCENT);
        assert_eq!(relay.on_reading(Ok(FOUR_PERCENT)), Action::Publish(FOUR_PERCENT));
    }
}

#[test]
fn value_in_flight_is_not_visible() {
    let mut relay = relay_at("0.03");
    assert_eq!(relay.on_reading(Ok(FOUR_PERCENT)), Action::Publish(FOUR_PERCENT));
    assert_eq!(relay.published(), THREE_PERCENT);
    assert_eq!(relay.in_flight(), Some(FOUR_PERCENT));
    let later = FOUR_PERCENT + FIXED_ONE / 100;
    assert_eq!(relay.on_reading(Ok(later)), Action::Skip(SkipReason::InFlight));
    assert_eq!(relay.published(), THREE_PERCENT);
    relay.on_publish_outcome(Ok(()));
    assert_eq!(relay.published(), FOUR_PERCENT);
}

#[test]
fn fetch_failure_skips_the_tick() {
    let mut relay = relay_at("0.03");
    let e = ApiError::Fetch(FetchError::Transient);
    assert_eq!(relay.on_reading(Err(e)), Action::Skip(SkipReason::Failed(e)));
    assert_eq!(relay.published(), THREE_PERCENT);
    assert_eq!(relay.in_flight(), None);
}

#[test]
fn zero_reading_is_not_published() {
    let mut relay = relay_at("0.03");
    assert_eq!(relay.on_reading(Ok(0)), Action::Skip(SkipReason::ZeroReading));
    assert_eq!(relay.published(), THREE_PERCENT);
    let mut cold = SyncLoop::new(DEFAULT_EPSILON);
    assert_eq!(cold.on_reading(Ok(0)), Action::Skip(SkipReason::ZeroReading));
}

#[test]
fn outcome_without_publication_is_ignored() {
    let mut relay = relay_at("0.03");
    relay.on_publish_outcome(Ok(()));
    assert_eq!(relay.published(), THREE_PERCENT);
    assert_eq!(relay.epsilon(), DEFAULT_EPSILON);
}

#[test]
fn should_publish_is_strictly_past_epsilon() {
    assert!(!should_publish(100, 110, 10));
    assert!(should_publish(100, 111, 10));
    assert!(!should_publish(110, 100, 10));
    assert!(should_publish(111, 100, 10));
    assert!(!should_publish(5, 5, 0));
    assert!(should_publish(0, u128::MAX, u128::MAX - 1));
}

#[test]
fn encoding_truncates_past_eighteen_places() {
    assert_eq!(encode_fixed("0.1234567890123456789"), Ok(123_456_789_012_345_678));
    assert_eq!(encode_fixed("0.9999999999999999999999"), Ok(999_999_999_999_999_999));
    assert_eq!(encode_fixed("3"), Ok(3 * FIXED_ONE));
    assert_eq!(encode_fixed("3.1"), Ok(3_100_000_000_000_000_000));
    assert_eq!(encode_fixed("0.000000000000000001"), Ok(1));
    assert_eq!(encode_fixed("0.0000000000000000009"), Ok(0));
    assert_eq!(encode_fixed("007.5"), Ok(7_500_000_000_000_000_000));
}

#[test]
fn encoding_rejects_other_notation() {
    for text in ["", "abc", ".5", "1.", "-1", "+1", "1e-7", "1.2.3", " 1", "1 ", "1,5", "NaN", "inf"] {
        assert_eq!(encode_fixed(text), Err(EncodeError::NotDecimal), "{:?}", text);
    }
}

#[test]
fn encoding_overflow_at_the_word_limit() {
    assert_eq!(encode_fixed("340282366920938463463.374607431768211455"), Ok(u128::MAX));
    assert_eq!(encode_fixed("340282366920938463463.374607431768211456"), Err(EncodeError::Overflow));
    assert_eq!(encode_fixed("340282366920938463464"), Err(EncodeError::Overflow));
    assert_eq!(encode_fixed("99999999999999999999999999999999999999999x"), Err(EncodeError::NotDecimal));
}

#[test]
fn decoding_writes_every_place() {
    assert_eq!(decode_fixed(123_456_789_012_345_678), "0.123456789012345678");
    assert_eq!(decode_fixed(0), "0.000000000000000000");
    assert_eq!(decode_fixed(THREE_PERCENT), "0.030000000000000000");
    assert_eq!(decode_fixed(3_100_000_000_000_000_000), "3.100000000000000000");
    assert_eq!(decode_fixed(u128::MAX), "340282366920938463463.374607431768211455");
}

#[test]
fn decode_then_encode_round_trips() {
    for v in [0, 1, 9, 10, THREE_PERCENT, FIXED_ONE - 1, FIXED_ONE, 123_456_789_012_345_678_901, u128::MAX] {
        assert_eq!(encode_fixed(&decode_fixed(v)), Ok(v));
    }
    let truncated = encode_fixed("0.1234567890123456789").unwrap();
    assert_eq!(encode_fixed(&decode_fixed(truncated)), Ok(truncated));
}

#[test]
fn reading_errors_are_classified() {
    assert_eq!(decode_reading("0.031"), Ok(31_000_000_000_000_000));
    assert_eq!(decode_reading("n/a"), Err(ApiError::Fetch(FetchError::Malformed)));
    assert_eq!(decode_reading("340282366920938463464"), Err(ApiError::Publish(PublishError::EncodingOverflow)));
}

#[test]
fn partial_fetch_keeps_the_good_value() {
    let e = ApiError::Fetch(FetchError::Transient);
    let r = combine_readings(Ok(THREE_PERCENT), Err(e));
    assert_eq!(r, AprReport { current: Some(THREE_PERCENT), moving_average: None, failure: Some(ReportFailure::MovingAverage) });
    assert!(!r.is_total_failure());
    let r = combine_readings(Err(e), Ok(FOUR_PERCENT));
    assert_eq!(r, AprReport { current: None, moving_average: Some(FOUR_PERCENT), failure: Some(ReportFailure::Current) });
    assert!(!r.is_total_failure());
}

#[test]
fn combined_fetch_outcomes() {
    let e = ApiError::Fetch(FetchError::Malformed);
    let r = combine_readings(Ok(THREE_PERCENT), Ok(FOUR_PERCENT));
    assert_eq!(r, AprReport { current: Some(THREE_PERCENT), moving_average: Some(FOUR_PERCENT), failure: None });
    let r = combine_readings(Err(e), Err(e));
    assert_eq!(r, AprReport { current: None, moving_average: None, failure: Some(ReportFailure::Both) });
    assert!(r.is_total_failure());
}
