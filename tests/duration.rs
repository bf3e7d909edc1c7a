use mlua_stdlib::duration::Duration;

#[test]
fn parse_suffixes() {
    let d = Duration::parse("250ms").unwrap();
    assert_eq!((d.as_secs(), d.subsec_nanos()), (0, 250_000_000));
    let d = Duration::parse("1500us").unwrap();
    assert_eq!((d.as_secs(), d.subsec_nanos()), (0, 1_500_000));
    let d = Duration::parse("3s").unwrap();
    assert_eq!((d.as_secs(), d.subsec_nanos()), (3, 0));
    let d = Duration::parse("+7s").unwrap();
    assert_eq!(d.as_secs(), 7);
    let d = Duration::parse("2500ms").unwrap();
    assert_eq!((d.as_secs(), d.subsec_nanos(), d.as_millis()), (2, 500_000_000, 2500));
}

#[test]
fn parse_rejects() {
    for text in ["", "s", "ms", "us", "-1s", "1.5s", "10", "xus", "10m", "+s", "18446744073709551616s", "1 s"] {
        assert!(Duration::parse(text).is_none(), "{text}");
    }
    assert_eq!(Duration::parse("18446744073709551615s").unwrap().as_secs(), u64::MAX);
}

#[test]
fn from_integer_and_parts() {
    assert!(Duration::from_integer(-1).is_none());
    assert_eq!(Duration::from_integer(42).unwrap().as_millis(), 42_000);
    assert!(Duration::from_parts(1, 1_000_000_000).is_none());
    let d = Duration::from_parts(1, 999_999_999).unwrap();
    assert_eq!(d.as_millis(), 1999);
    assert_eq!(Duration::from_millis(1234).subsec_nanos(), 234_000_000);
    assert_eq!(Duration::from_micros(u64::MAX).as_secs(), u64::MAX / 1_000_000);
    assert_eq!(Duration::from_secs(u64::MAX).as_millis(), u64::MAX as u128 * 1000);
}
