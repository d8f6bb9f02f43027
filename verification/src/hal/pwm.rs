//! LEDC PWM rules: channel and timer assignment, duty clamping and the
//! 10-bit duty register value.
use vstd::prelude::*;
use crate::hal::gpio::{check_pin, spec_pin_error, spec_user_pin};

verus! {

/// Highest low-speed LEDC channel.
pub const MAX_CHANNEL: u8 = 7;

/// How a channel is set up.
#[derive(Clone, Copy, Debug, PartialEq, Eq)]
pub struct PwmSetup {
    pub pin: u8,
    pub channel: u8,
    /// Timers 0-2 serve channels 0-2; timer 3 serves channels 3-7.
    pub timer: u8,
    pub freq_hz: u32,
    /// Duty in percent, clamped to 100.
    pub duty_pct: u8,
}

/// The timer a channel runs on.
pub open spec fn spec_timer(channel: u8) -> u8 {
    if channel <= 2 {
        channel
    } else {
        3
    }
}

/// The 10-bit duty (0-1023) for a percentage, clamped to 100 %.
pub open spec fn spec_duty10(duty_pct: u8) -> int {
    let d: int = if duty_pct > 100 { 100 } else { duty_pct as int };
    (d * 1023) / 100
}

/// Checks the pin (first) and the channel of a PWM request, and picks the
/// timer and clamped duty.
pub fn pwm_setup(pin: u8, channel: u8, freq_hz: u32, duty_pct: u8) -> (r: Result<PwmSetup, &'static str>)
    ensures
        r is Ok <==> spec_user_pin(pin as int) && channel <= MAX_CHANNEL,
        !spec_user_pin(pin as int) ==> (r matches Err(e) && e@ == spec_pin_error(pin as int)),
        spec_user_pin(pin as int) && channel > MAX_CHANNEL ==> (r matches Err(e) && e@
            == "channel must be 0-7"@),
        r matches Ok(s) ==> s == (PwmSetup {
            pin,
            channel,
            timer: spec_timer(channel),
            freq_hz,
            duty_pct: if duty_pct > 100 { 100 } else { duty_pct },
        }),
{
    check_pin(pin)?;
    if channel > MAX_CHANNEL {
        return Err("channel must be 0-7");
    }
    let timer = if channel <= 2 { channel } else { 3 };
    let duty = if duty_pct > 100 { 100 } else { duty_pct };
    Ok(PwmSetup { pin, channel, timer, freq_hz, duty_pct: duty })
}

/// Law: of the four LEDC timers that `pwm_setup` hands out, channels 0, 1
/// and 2 each get one of their own, shared with no other channel, and
/// channels 3-7 share the fourth: the timers of two channels coincide
/// exactly when they are the same channel or both are above 2.
pub proof fn lemma_timers_shared_only_above_two(c1: u8, c2: u8)
    requires
        c1 <= MAX_CHANNEL,
        c2 <= MAX_CHANNEL,
    ensures
        spec_timer(c1) < 4,
        (spec_timer(c1) == spec_timer(c2)) <==> (c1 == c2 || (c1 > 2 && c2 > 2)),
{
}

/// The value written to a channel's duty register for `duty_pct`: the
/// 10-bit duty shifted left by four, as the LEDC hardware expects.
pub fn duty_register(channel: u8, duty_pct: u8) -> (r: Result<u32, &'static str>)
    ensures
        channel > MAX_CHANNEL ==> (r matches Err(e) && e@ == "channel must be 0-7"@),
        channel <= MAX_CHANNEL ==> r == Ok::<u32, &'static str>((spec_duty10(duty_pct) * 16) as u32),
{
    if channel > MAX_CHANNEL {
        return Err("channel must be 0-7");
    }
    let d: u32 = if duty_pct > 100 { 100 } else { duty_pct as u32 };
    assert(d * 1023 <= 102300) by (nonlinear_arith)
        requires
            d <= 100,
    ;
    let duty_val = (d * 1023) / 100;
    assert(duty_val << 4 == duty_val * 16) by (bit_vector)
        requires
            duty_val <= 1023,
    ;
    Ok(duty_val << 4)
}

/// Law: the duty register never exceeds the 10-bit maximum (shifted), any
/// duty above 100 % acts as 100 %, and stopping (duty 0) writes 0.
pub proof fn lemma_duty_register_bounds(duty_pct: u8)
    ensures
        0 <= spec_duty10(duty_pct) <= 1023,
        spec_duty10(duty_pct) * 16 <= 1023 * 16,
        duty_pct >= 100 ==> spec_duty10(duty_pct) == 1023,
        spec_duty10(0) == 0,
{
    let d: int = if duty_pct > 100 { 100 } else { duty_pct as int };
    assert(0 <= (d * 1023) / 100 <= 1023) by (nonlinear_arith)
        requires
            0 <= d <= 100,
    ;
}

} // verus!
