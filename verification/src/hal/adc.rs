//! ADC1 rules and sample arithmetic (ADC2 conflicts with Wi-Fi).
//!
//! ADC1 channels on ESP32-S3:
//!   GPIO1=CH0, GPIO2=CH1, GPIO4=CH3, GPIO5=CH4, GPIO6=CH5,
//!   GPIO7=CH6, GPIO8=CH7, GPIO9=CH8, GPIO10=CH9
use vstd::prelude::*;
use crate::hal::gpio::spec_user_pin;

verus! {

/// The GPIOs wired to ADC1.
pub open spec fn spec_adc_pin(pin: int) -> bool {
    pin == 1 || pin == 2 || (4 <= pin <= 10)
}

/// The ADC1 pins, in ascending order.
pub open spec fn spec_adc_pins() -> Seq<u8> {
    seq![1u8, 2u8, 4u8, 5u8, 6u8, 7u8, 8u8, 9u8, 10u8]
}

/// Full-scale millivolts at 11 dB attenuation.
pub const FULL_SCALE_MV: u32 = 3300;

/// Largest 12-bit reading.
pub const MAX_RAW: u32 = 4095;

/// Millivolts for an averaged raw reading.
pub open spec fn spec_millivolts(avg_raw: int) -> int {
    (avg_raw * 3300) / 4095
}

/// The sum of a run of readings.
pub open spec fn spec_sum(s: Seq<u16>) -> int
    decreases s.len(),
{
    if s.len() == 0 {
        0
    } else {
        spec_sum(s.drop_last()) + s.last()
    }
}

/// The number of samples averaged for a request: `samples` clamped to 1-16.
pub open spec fn spec_sample_count(samples: int) -> int {
    if samples < 1 {
        1
    } else if samples > 16 {
        16
    } else {
        samples
    }
}

/// Checks that `pin` is an ADC1 channel and returns the channel number.
pub fn check_adc_pin(pin: u8) -> (r: Result<u8, &'static str>)
    ensures
        spec_adc_pin(pin as int) ==> r == Ok::<u8, &'static str>((pin - 1) as u8),
        !spec_adc_pin(pin as int) ==> (r matches Err(e) && e@
            == "not an ADC1 pin (ADC1: GPIO1,2,4-10)"@),
{
    match pin {
        1 => Ok(0),
        2 => Ok(1),
        4 => Ok(3),
        5 => Ok(4),
        6 => Ok(5),
        7 => Ok(6),
        8 => Ok(7),
        9 => Ok(8),
        10 => Ok(9),
        _ => Err("not an ADC1 pin (ADC1: GPIO1,2,4-10)"),
    }
}

/// Lists all ADC1 pins.
pub fn adc_pins() -> (r: &'static [u8])
    ensures
        r@ == spec_adc_pins(),
{
    let pins: &'static [u8] = &[1, 2, 4, 5, 6, 7, 8, 9, 10];
    pins
}

/// The number of reads to average for a request of `samples` (1-16, clamped).
pub fn sample_count(samples: u8) -> (n: u8)
    ensures
        n == spec_sample_count(samples as int),
        1 <= n <= 16,
{
    if samples < 1 {
        1
    } else if samples > 16 {
        16
    } else {
        samples
    }
}

/// Converts an averaged 12-bit reading (0-4095) to millivolts (0-3300).
pub fn millivolts(avg_raw: u32) -> (mv: u16)
    requires
        avg_raw <= u16::MAX,
    ensures
        mv == spec_millivolts(avg_raw as int),
{
    assert(avg_raw * 3300 <= 65535 * 3300) by (nonlinear_arith)
        requires
            avg_raw <= 65535,
    ;
    assert((avg_raw * 3300) / 4095 <= 65535 * 3300 / 4095) by (nonlinear_arith)
        requires
            avg_raw * 3300 <= 65535 * 3300,
    ;
    ((avg_raw * 3300) / 4095) as u16
}

/// Millivolts for the readings taken on `pin`: the readings are averaged
/// (integer division) and scaled to 0-3300 mV. A pin that is not on ADC1
/// is refused before anything is read.
pub fn read_mv_avg(pin: u8, readings: &[u16]) -> (r: Result<u16, &'static str>)
    requires
        1 <= readings@.len() <= 16,
    ensures
        !spec_adc_pin(pin as int) ==> (r matches Err(e) && e@ == "not an ADC1 pin"@),
        spec_adc_pin(pin as int) ==> r == Ok::<u16, &'static str>(
            spec_millivolts(spec_sum(readings@) / readings@.len() as int) as u16,
        ),
{
    if !(pin == 1 || pin == 2 || (4 <= pin && pin <= 10)) {
        return Err("not an ADC1 pin");
    }
    let n = readings.len();
    let mut total: u32 = 0;
    let mut i: usize = 0;
    while i < n
        invariant
            n == readings@.len(),
            n <= 16,
            i <= n,
            total == spec_sum(readings@.subrange(0, i as int)),
            total <= i * 65535,
        decreases n - i,
    {
        assert(readings@.subrange(0, i + 1).drop_last() == readings@.subrange(0, i as int));
        total = total + readings[i] as u32;
        i = i + 1;
    }
    assert(readings@.subrange(0, n as int) == readings@);
    let avg = total / (n as u32);
    let ghost t = total as int;
    let ghost nn = n as int;
    assert(t / nn <= 65535) by (nonlinear_arith)
        requires
            t <= nn * 65535,
            nn >= 1,
    ;
    Ok(millivolts(avg))
}

/// Millivolts for a single reading taken on `pin`.
pub fn read_mv(pin: u8, reading: u16) -> (r: Result<u16, &'static str>)
    ensures
        !spec_adc_pin(pin as int) ==> (r matches Err(e) && e@ == "not an ADC1 pin"@),
        spec_adc_pin(pin as int) ==> r == Ok::<u16, &'static str>(
            spec_millivolts(reading as int) as u16,
        ),
{
    let readings: Vec<u16> = vec![reading];
    proof {
        assert(readings@.drop_last() == Seq::<u16>::empty());
        reveal_with_fuel(spec_sum, 2);
        assert(spec_sum(readings@) == reading);
    }
    read_mv_avg(pin, readings.as_slice())
}

/// The sum of readings that are each at most `bound`.
proof fn lemma_sum_bound(s: Seq<u16>, bound: int)
    requires
        forall|i: int| 0 <= i < s.len() ==> s[i] <= bound,
    ensures
        0 <= spec_sum(s) <= s.len() * bound,
    decreases s.len(),
{
    if s.len() > 0 {
        lemma_sum_bound(s.drop_last(), bound);
        assert(s.len() * bound == (s.len() - 1) * bound + bound) by (nonlinear_arith);
    }
}

/// Law: readings within the 12-bit range give 0-3300 millivolts.
pub proof fn lemma_read_mv_in_range(readings: Seq<u16>)
    requires
        1 <= readings.len(),
        forall|i: int| 0 <= i < readings.len() ==> readings[i] <= MAX_RAW,
    ensures
        0 <= spec_millivolts(spec_sum(readings) / readings.len() as int) <= FULL_SCALE_MV,
{
    lemma_sum_bound(readings, 4095);
    let n = readings.len() as int;
    let avg = spec_sum(readings) / n;
    assert(0 <= avg <= 4095) by (nonlinear_arith)
        requires
            avg == spec_sum(readings) / n,
            0 <= spec_sum(readings) <= n * 4095,
            n >= 1,
    ;
    assert(0 <= (avg * 3300) / 4095 <= 3300) by (nonlinear_arith)
        requires
            0 <= avg <= 4095,
    ;
}

/// Law: `adc_pins` lists exactly the pins that `check_adc_pin` accepts, and
/// each of them is also a pin that user code may drive.
pub proof fn lemma_adc_pins_are_checked_user_pins()
    ensures
        forall|p: u8| #[trigger] spec_adc_pins().contains(p) <==> spec_adc_pin(p as int),
        forall|p: int| spec_adc_pin(p) ==> spec_user_pin(p),
{
    assert forall|p: u8| #[trigger] spec_adc_pins().contains(p) <==> spec_adc_pin(p as int) by {
        if spec_adc_pin(p as int) {
            assert(spec_adc_pins()[(p - 1 - if p >= 4 { 1int } else { 0int }) as int] == p);
        }
    }
}

} // verus!
