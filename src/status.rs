use vstd::prelude::*;

verus! {

/// Badge shown beside a capacity or progress figure.
#[derive(Clone, Copy, Debug, PartialEq, Eq, Structural)]
pub enum BadgeType {
    Success,
    Warning,
    Error,
    Info,
    /// No indication, as for nothing estimated and nothing allocated.
    Neutral,
}

pub open spec fn abs_diff(a: int, b: int) -> int {
    if a >= b { a - b } else { b - a }
}

/// Classification of an allocated amount against an estimate (both in the
/// same unit). With a positive estimate the relative difference
/// `|allocated - estimated| / estimated` decides: at most 5% is a success,
/// at most 25% a warning, more an error.
pub open spec fn capacity_status(allocated: int, estimated: int) -> BadgeType {
    if estimated == 0 {
        if allocated == 0 { BadgeType::Neutral } else { BadgeType::Warning }
    } else if 20 * abs_diff(allocated, estimated) <= estimated {
        BadgeType::Success
    } else if 4 * abs_diff(allocated, estimated) <= estimated {
        BadgeType::Warning
    } else {
        BadgeType::Error
    }
}

/// Capacity badge for `allocated` against `estimated`, both in hundredths of a week.
pub fn get_capacity_status(allocated: u64, estimated: u64) -> (r: BadgeType)
    ensures
        r == capacity_status(allocated as int, estimated as int),
{
    if estimated == 0 {
        if allocated == 0 {
            BadgeType::Neutral
        } else {
            BadgeType::Warning
        }
    } else {
        let diff: u64 = if allocated >= estimated {
            allocated - estimated
        } else {
            estimated - allocated
        };
        let scaled: u128 = diff as u128;
        if 20 * scaled <= estimated as u128 {
            BadgeType::Success
        } else if 4 * scaled <= estimated as u128 {
            BadgeType::Warning
        } else {
            BadgeType::Error
        }
    }
}

} // verus!
