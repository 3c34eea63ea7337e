//! Fixed-point quantities: every length, speed and duration in this crate is
//! an unsigned integer counting billionths of its base unit (metres, metres
//! per second, seconds).

use vstd::prelude::*;

verus! {

/// Number of fixed-point steps in one base unit.
pub const SCALE: u64 = 1_000_000_000;

/// Sum of two quantities, held at the largest representable value.
pub open spec fn spec_add_capped(a: u64, b: u64) -> u64 {
    if a + b > u64::MAX {
        u64::MAX
    } else {
        (a + b) as u64
    }
}

/// Adds two quantities, saturating at the largest representable value.
pub fn add_capped(a: u64, b: u64) -> (r: u64)
    ensures
        r == spec_add_capped(a, b),
{
    if a > u64::MAX - b {
        u64::MAX
    } else {
        a + b
    }
}

/// Time needed to cover `distance` at `speed`: the quotient, truncated to
/// whole steps and capped. Standing still never arrives, except where there
/// is nothing to cover.
pub open spec fn spec_travel_time(distance: u64, speed: u64) -> u64 {
    if speed == 0 {
        if distance == 0 {
            0
        } else {
            u64::MAX
        }
    } else if distance * SCALE / (speed as int) > u64::MAX {
        u64::MAX
    } else {
        (distance * SCALE / (speed as int)) as u64
    }
}

/// Computes the time needed to cover `distance` at `speed`.
pub fn travel_time(distance: u64, speed: u64) -> (r: u64)
    ensures
        r == spec_travel_time(distance, speed),
{
    if speed == 0 {
        if distance == 0 {
            0
        } else {
            u64::MAX
        }
    } else {
        assert(distance * SCALE <= u64::MAX * SCALE) by (nonlinear_arith)
            requires
                distance <= u64::MAX,
        ;
        let scaled: u128 = (distance as u128) * (SCALE as u128);
        let quotient: u128 = scaled / (speed as u128);
        if quotient > u64::MAX as u128 {
            u64::MAX
        } else {
            quotient as u64
        }
    }
}

/// A travel time never shrinks when the distance grows.
pub proof fn travel_time_grows_with_distance(shorter: u64, longer: u64, speed: u64)
    requires
        shorter <= longer,
    ensures
        spec_travel_time(shorter, speed) <= spec_travel_time(longer, speed),
{
    if speed != 0 {
        assert(shorter * SCALE / (speed as int) <= longer * SCALE / (speed as int))
            by (nonlinear_arith)
            requires
                shorter <= longer,
                speed > 0,
        ;
    }
}

} // verus!
