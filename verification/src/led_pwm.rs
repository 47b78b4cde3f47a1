//! Brightness of an external LED by PWM: the duty cycle for a percentage.

use vstd::prelude::*;

use crate::light_state::LEVEL_MAX;

verus! {

/// PWM frequency in Hz: fast enough to show no flicker.
pub const PWM_FREQUENCY_HZ: u32 = 5_000;

/// Duty resolution in bits (8192 levels).
pub const PWM_RESOLUTION_BITS: u32 = 13;

/// The duty cycle for `percent`: `max_duty * min(percent, 100) / 100`.
pub open spec fn duty_for(max_duty: u32, percent: u8) -> int {
    let p: int = if percent <= LEVEL_MAX { percent as int } else { LEVEL_MAX as int };
    max_duty * p / 100
}

/// The duty cycle that shows `percent` (0..100, higher values saturate) on
/// a channel whose full duty is `max_duty`.
pub fn pwm_duty(max_duty: u32, percent: u8) -> (d: u32)
    requires
        max_duty * (if percent <= LEVEL_MAX { percent as int } else { LEVEL_MAX as int })
            <= u32::MAX,
    ensures
        d == duty_for(max_duty, percent),
{
    let p: u32 = if percent <= LEVEL_MAX { percent as u32 } else { LEVEL_MAX as u32 };
    (max_duty * p) / 100
}

/// Percent 0 turns the LED off, 100 and above gives the full duty, and the
/// duty never exceeds the full duty.
pub proof fn lemma_pwm_duty_range(max_duty: u32, percent: u8)
    ensures
        duty_for(max_duty, 0) == 0,
        percent >= 100 ==> duty_for(max_duty, percent) == max_duty,
        0 <= duty_for(max_duty, percent) <= max_duty,
{
    let p: int = if percent <= 100 { percent as int } else { 100 };
    assert(0 <= max_duty * p / 100 <= max_duty) by (nonlinear_arith)
        requires
            0 <= p <= 100,
            0 <= max_duty,
    ;
    assert(max_duty * 100 / 100 == max_duty) by (nonlinear_arith);
    assert(max_duty * 0 / 100 == 0) by (nonlinear_arith);
}

} // verus!
