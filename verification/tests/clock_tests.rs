use artifact::clock::{nanos_from_reading, secs_from_reading, unix_time_secs};
use artifact::directory_item::now_nanos;

#[test]
fn clock_readings_convert_to_seconds() {
    assert_eq!(secs_from_reading(Ok(0)), Some(0));
    assert_eq!(secs_from_reading(Ok(1_999_999_999)), Some(1));
    assert_eq!(secs_from_reading(Ok(u128::MAX)), Some(u64::MAX));
    assert_eq!(secs_from_reading(Err(5)), None);
}

#[test]
fn clock_readings_convert_to_signed_nanos() {
    assert_eq!(nanos_from_reading(Ok(42)), 42);
    assert_eq!(nanos_from_reading(Err(42)), -42);
    assert_eq!(nanos_from_reading(Ok(u128::MAX)), i128::MAX);
    assert_eq!(nanos_from_reading(Err(u128::MAX)), -i128::MAX);
}

#[test]
fn current_time_is_after_2020() {
    assert!(unix_time_secs().unwrap() > 1_577_836_800);
    assert!(now_nanos() > 1_577_836_800_000_000_000);
}
