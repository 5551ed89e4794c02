use ext4::Time;

#[test]
fn future_file() {
    // 2345-06-07 08:09:10.111213141Z
    let time = Time::from_extra(0xc229_d726u32 as i32, Some(0x1a83_e957));
    assert_eq!(11847456550, time.epoch_secs);
    assert_eq!(Some(111213141), time.nanos);
}

#[test]
fn time_without_extra_has_no_nanos() {
    let time = Time::from_extra(-5, None);
    assert_eq!(-5, time.epoch_secs);
    assert_eq!(None, time.nanos);
}

#[test]
fn time_nanos_are_clamped() {
    let time = Time::from_extra(7, Some(0xFFFF_FFFF));
    assert_eq!(7 + (3i64 << 32), time.epoch_secs);
    assert_eq!(Some(999_999_999), time.nanos);
}
