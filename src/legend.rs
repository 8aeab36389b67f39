use vstd::prelude::*;

verus! {

/// How a temperature stands against its group's thresholds.
#[derive(Clone, Copy, Debug, PartialEq, Eq, Structural)]
pub enum Heat {
    Normal,
    Warm,
    Hot,
}

/// The heat of a reading in milli-degrees against thresholds in whole degrees.
pub open spec fn heat_of(last: Option<i64>, warn: u32, hot: u32) -> Heat {
    match last {
        Some(v) => if v >= hot as int * 1000 {
            Heat::Hot
        } else if v >= warn as int * 1000 {
            Heat::Warm
        } else {
            Heat::Normal
        },
        None => Heat::Normal,
    }
}

/// The heat of a channel's newest reading (see `heat_of`); a channel without
/// data is normal.
pub fn heat_level(last: Option<i64>, warn: u32, hot: u32) -> (r: Heat)
    ensures
        r == heat_of(last, warn, hot),
{
    match last {
        Some(v) => {
            if v >= hot as i64 * 1000 {
                Heat::Hot
            } else if v >= warn as i64 * 1000 {
                Heat::Warm
            } else {
                Heat::Normal
            }
        },
        None => Heat::Normal,
    }
}

/// The time range shown, in milliseconds: the last `window` before `now`, or
/// the first `window` while less than that has passed.
pub fn display_window(now: u64, window: u64) -> (r: (u64, u64))
    ensures
        r == (if now > window { ((now - window) as u64, now) } else { (0u64, window) }),
{
    if now > window {
        (now - window, now)
    } else {
        (0, window)
    }
}

} // verus!
