use vtome::Duration;

#[test]
fn durations_count_nanoseconds_exactly() {
    assert_eq!(Duration::from_secs(2).as_nanos(), 2_000_000_000);
    assert_eq!(Duration::from_millis(3).as_nanos(), 3_000_000);
    assert_eq!(Duration::from_nanos(7).as_nanos(), 7);
    assert!(Duration::zero().is_zero());
    assert_eq!(Duration::from_millis(5).saturating_sub(Duration::from_millis(7)), Duration::zero());
    assert_eq!(Duration::from_millis(7).saturating_sub(Duration::from_millis(5)), Duration::from_millis(2));
    assert_eq!(Duration::from_nanos(9).half(), Duration::from_nanos(4));
    assert_eq!(
        Duration::from_secs(1).checked_add(Duration::from_millis(1)),
        Some(Duration::from_millis(1_001))
    );
    assert_eq!(Duration::from_nanos_u128(u128::MAX).checked_add(Duration::from_nanos(1)), None);
    assert_eq!(Duration::from_secs(1).plus(Duration::from_secs(2)), Duration::from_secs(3));
}
