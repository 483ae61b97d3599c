use std::time::Duration;
use vstd::prelude::*;

verus! {

pub const MILLIS_PER_SECOND: u128 = 1000;

pub const MILLIS_PER_MINUTE: u128 = 60_000;

pub const MILLIS_PER_HOUR: u128 = 3_600_000;

pub const MILLIS_PER_DAY: u128 = 86_400_000;

/// A duration broken into calendar-like components, each below its next larger unit
/// (except `days`, which wraps at `u32::MAX + 1`).
#[derive(Debug, Clone, Copy, PartialEq, Eq, Structural)]
pub struct SplitDuration {
    pub days: u32,
    pub hours: u8,
    pub minutes: u8,
    pub seconds: u8,
    pub tenths: u8,
    pub hundredths: u8,
    pub millis: u8,
}

/// The components of `ms` milliseconds.
pub open spec fn split_of_millis(ms: int) -> SplitDuration {
    SplitDuration {
        days: ((ms / MILLIS_PER_DAY as int) % 0x1_0000_0000) as u32,
        hours: (ms % MILLIS_PER_DAY as int / MILLIS_PER_HOUR as int) as u8,
        minutes: (ms % MILLIS_PER_HOUR as int / MILLIS_PER_MINUTE as int) as u8,
        seconds: (ms % MILLIS_PER_MINUTE as int / MILLIS_PER_SECOND as int) as u8,
        tenths: (ms % 1000 / 100) as u8,
        hundredths: (ms % 100 / 10) as u8,
        millis: (ms % 10) as u8,
    }
}

/// What `Duration::as_millis` returns for `d`.
pub uninterp spec fn duration_millis(d: Duration) -> u128;

/// Relies on `Duration::as_millis`: the number of whole milliseconds in `d`.
#[verifier::external_body]
fn duration_as_millis(d: &Duration) -> (r: u128)
    ensures
        r == duration_millis(*d),
{
    d.as_millis()
}

impl SplitDuration {
    /// Splits a number of milliseconds into its components.
    pub fn from_millis(ms: u128) -> (r: SplitDuration)
        ensures
            r == split_of_millis(ms as int),
    {
        let millis: u8 = (ms % 10) as u8;
        let hundredths: u8 = (ms % 100 / 10) as u8;
        let tenths: u8 = (ms % 1000 / 100) as u8;
        let seconds: u8 = (ms % MILLIS_PER_MINUTE / MILLIS_PER_SECOND) as u8;
        let minutes: u8 = (ms % MILLIS_PER_HOUR / MILLIS_PER_MINUTE) as u8;
        let hours: u8 = (ms % MILLIS_PER_DAY / MILLIS_PER_HOUR) as u8;
        let days: u32 = ((ms / MILLIS_PER_DAY) % 0x1_0000_0000) as u32;
        SplitDuration { days, hours, minutes, seconds, tenths, hundredths, millis }
    }

    /// Splits `duration`, counted in whole milliseconds, into its components.
    pub fn from_duration(duration: &Duration) -> (r: SplitDuration)
        ensures
            r == split_of_millis(duration_millis(*duration) as int),
    {
        let ms = duration_as_millis(duration);
        SplitDuration::from_millis(ms)
    }
}

/// The coarsest unit worth showing for a remaining time: whole days, hours or minutes when
/// there are any, whole seconds from ten seconds up, and seconds with tenths below that.
#[derive(Debug, Clone, Copy, PartialEq, Eq, Structural)]
pub enum RemainingTimeLabel {
    Days(u32),
    Hours(u8),
    Minutes(u8),
    Seconds(u8),
    SecondsAndTenths(u8, u8),
}

pub open spec fn label_of(split: SplitDuration) -> RemainingTimeLabel {
    if split.days > 0 {
        RemainingTimeLabel::Days(split.days)
    } else if split.hours > 0 {
        RemainingTimeLabel::Hours(split.hours)
    } else if split.minutes > 0 {
        RemainingTimeLabel::Minutes(split.minutes)
    } else if split.seconds >= 10 {
        RemainingTimeLabel::Seconds(split.seconds)
    } else {
        RemainingTimeLabel::SecondsAndTenths(split.seconds, split.tenths)
    }
}

impl RemainingTimeLabel {
    pub fn from_split(split: &SplitDuration) -> (r: RemainingTimeLabel)
        ensures
            r == label_of(*split),
    {
        if split.days > 0 {
            RemainingTimeLabel::Days(split.days)
        } else if split.hours > 0 {
            RemainingTimeLabel::Hours(split.hours)
        } else if split.minutes > 0 {
            RemainingTimeLabel::Minutes(split.minutes)
        } else if split.seconds >= 10 {
            RemainingTimeLabel::Seconds(split.seconds)
        } else {
            RemainingTimeLabel::SecondsAndTenths(split.seconds, split.tenths)
        }
    }

    /// The label for a remaining time of `nanos` nanoseconds, counted in whole milliseconds.
    pub fn from_nanos(nanos: u128) -> (r: RemainingTimeLabel)
        ensures
            r == label_of(split_of_millis((nanos / 1_000_000) as int)),
    {
        RemainingTimeLabel::from_split(&SplitDuration::from_millis(nanos / 1_000_000))
    }
}

} // verus!
