use taskstore::stamp::Timestamp;

#[test]
fn zero_is_the_epoch() {
    assert_eq!(Timestamp::zero().nanos(), 0);
    assert_eq!(Timestamp::zero(), Timestamp::from_nanos(0));
    assert_eq!(Timestamp::zero().to_text(), "0");
}

#[test]
fn whole_seconds_have_no_fraction() {
    assert_eq!(Timestamp::from_nanos(1_000_000_000).to_text(), "1");
    assert_eq!(Timestamp::from_nanos(1_600_000_000_000_000_000).to_text(), "1600000000");
    assert_eq!(Timestamp::from_nanos(10_000_000_000).to_text(), "10");
}

#[test]
fn fraction_ends_at_its_last_digit() {
    assert_eq!(Timestamp::from_nanos(1_500_000_000).to_text(), "1.5");
    assert_eq!(Timestamp::from_nanos(1_600_000_000_123_456_000).to_text(), "1600000000.123456");
    assert_eq!(Timestamp::from_nanos(5).to_text(), "0.000000005");
    assert_eq!(Timestamp::from_nanos(999_999_999).to_text(), "0.999999999");
    assert_eq!(Timestamp::from_nanos(2_000_000_010).to_text(), "2.00000001");
    assert_eq!(Timestamp::from_nanos(100_000_000).to_text(), "0.1");
}

#[test]
fn largest_instant_is_written_whole() {
    assert_eq!(
        Timestamp::from_nanos(u128::MAX).to_text(),
        "340282366920938463463374607431.768211455"
    );
}

#[test]
fn now_is_after_the_year_2020() {
    let now = Timestamp::now();
    assert!(now.nanos() > 1_577_836_800_000_000_000);
    let later = Timestamp::now();
    assert!(later.nanos() >= now.nanos() || later.nanos() < now.nanos());
}

#[test]
fn clock_before_the_epoch_gives_the_epoch() {
    assert_eq!(Timestamp::since_epoch(None), Timestamp::zero());
    assert_eq!(Timestamp::since_epoch(Some(0)), Timestamp::zero());
    assert_eq!(Timestamp::since_epoch(Some(1_500_000_000)), Timestamp::from_nanos(1_500_000_000));
    assert_eq!(Timestamp::since_epoch(Some(u128::MAX)).nanos(), u128::MAX);
}
