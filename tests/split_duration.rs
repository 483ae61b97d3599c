use std::time::Duration;

use fight_core::split_duration::SplitDuration;

#[test]
fn split_duration_works() {
    let days: u32 = 420;
    let hours: u8 = 13;
    let minutes: u8 = 37;
    let seconds: u8 = 33;
    let tenths: u8 = 5;
    let hundredths: u8 = 3;
    let millis: u8 = 1;

    let ddays = Duration::from_secs(days as u64 * 24 * 60 * 60);
    let dhours = Duration::from_secs(hours as u64 * 60 * 60);
    let dminutes = Duration::from_secs(minutes as u64 * 60);
    let dseconds = Duration::from_secs(seconds as u64);
    let dtenths = Duration::from_millis(tenths as u64 * 100);
    let dhundredths = Duration::from_millis(hundredths as u64 * 10);
    let dmillis = Duration::from_millis(millis as u64);

    let dcombined = ddays + dhours + dminutes + dseconds + dtenths + dhundredths + dmillis;
    let split = SplitDuration::from_duration(&dcombined);

    let expected = SplitDuration {
        days,
        hours,
        minutes,
        seconds,
        tenths,
        hundredths,
        millis,
    };

    assert_eq!(split, expected);
}

#[test]
fn split_duration_of_zero_is_all_zero() {
    let split = SplitDuration::from_duration(&Duration::ZERO);
    assert_eq!(
        split,
        SplitDuration { days: 0, hours: 0, minutes: 0, seconds: 0, tenths: 0, hundredths: 0, millis: 0 }
    );
}

#[test]
fn split_duration_from_millis_carries_each_unit() {
    let split = SplitDuration::from_millis(90_061_001);
    assert_eq!(
        split,
        SplitDuration { days: 1, hours: 1, minutes: 1, seconds: 1, tenths: 0, hundredths: 0, millis: 1 }
    );
}

#[test]
fn split_duration_drops_sub_millisecond_part() {
    let split = SplitDuration::from_duration(&Duration::from_nanos(2_999_999));
    assert_eq!(split.millis, 2);
    assert_eq!(split.seconds, 0);
}
