//! WS2812 LED state and colour rules: a command's colour is scaled by its
//! level, and an LED that is off shows black.
use vstd::prelude::*;

verus! {

/// Number of LEDs on the strip.
pub const LED_COUNT: usize = 1;

/// Shared LED state.
#[derive(Clone, Copy, Debug, Default, PartialEq, Eq)]
pub struct LedState {
    pub on: bool,
    pub r: u8,
    pub g: u8,
    pub b: u8,
    pub level: u8,
}

/// A colour as the driver sends it.
#[derive(Clone, Copy, Debug, Default, PartialEq, Eq)]
pub struct Rgb8 {
    pub r: u8,
    pub g: u8,
    pub b: u8,
}

/// An LED command: "on" or another state, a colour, and the brightness
/// level 0-255 that the command's intensity quantises to.
#[derive(Debug)]
pub struct LedCommand {
    pub state: String,
    pub r: u8,
    pub g: u8,
    pub b: u8,
    pub level: u8,
}

/// A channel scaled by a level: `c * level / 255`.
pub open spec fn spec_scale(c: u8, level: u8) -> u8 {
    ((c as int * level as int) / 255) as u8
}

/// The colour a command shows.
pub open spec fn spec_color(on: bool, r: u8, g: u8, b: u8, level: u8) -> Rgb8 {
    if on {
        Rgb8 { r: spec_scale(r, level), g: spec_scale(g, level), b: spec_scale(b, level) }
    } else {
        Rgb8 { r: 0, g: 0, b: 0 }
    }
}

fn scale(c: u8, level: u8) -> (r: u8)
    ensures
        r == spec_scale(c, level),
{
    let s = level as u16;
    assert((c as u16) * s <= 255 * 255) by (nonlinear_arith)
        requires
            c <= 255,
            s <= 255,
    ;
    assert(((c as u16) * s) / 255 <= 255) by (nonlinear_arith)
        requires
            (c as u16) * s <= 255 * 255,
    ;
    (((c as u16) * s) / 255) as u8
}

impl LedCommand {
    /// Whether the command switches the LED on: its state is exactly "on".
    pub fn on(&self) -> (r: bool)
        ensures
            r == (self.state@ == "on"@),
    {
        self.state == "on".to_owned()
    }

    /// The brightness level, 0-255.
    pub fn level(&self) -> (r: u8)
        ensures
            r == self.level,
    {
        self.level
    }

    /// The colour the LED shows for this command: each channel scaled by the
    /// level when on, black when off.
    pub fn color(&self) -> (c: Rgb8)
        ensures
            c == spec_color(self.state@ == "on"@, self.r, self.g, self.b, self.level),
    {
        let s = self.level();
        if self.on() {
            Rgb8 { r: scale(self.r, s), g: scale(self.g, s), b: scale(self.b, s) }
        } else {
            Rgb8 { r: 0, g: 0, b: 0 }
        }
    }
}

/// Law: scaling never brightens a channel, full level keeps it, level 0 and
/// the off state give black.
pub proof fn lemma_color_scaling(on: bool, r: u8, g: u8, b: u8, level: u8)
    ensures
        spec_color(on, r, g, b, level).r <= r,
        spec_color(on, r, g, b, level).g <= g,
        spec_color(on, r, g, b, level).b <= b,
        on && level == 255 ==> spec_color(on, r, g, b, level) == (Rgb8 { r, g, b }),
        (!on || level == 0) ==> spec_color(on, r, g, b, level) == (Rgb8 { r: 0, g: 0, b: 0 }),
{
    lemma_scale_bounds(r, level);
    lemma_scale_bounds(g, level);
    lemma_scale_bounds(b, level);
}

proof fn lemma_scale_bounds(c: u8, l: u8)
    ensures
        spec_scale(c, l) <= c,
        l == 255 ==> spec_scale(c, l) == c,
        l == 0 ==> spec_scale(c, l) == 0,
{
    let x = c as int;
    let y = l as int;
    assert(0 <= (x * y) / 255 <= x) by (nonlinear_arith)
        requires
            0 <= x <= 255,
            0 <= y <= 255,
    ;
    assert(y == 255 ==> (x * y) / 255 == x) by (nonlinear_arith);
    assert(y == 0 ==> (x * y) / 255 == 0) by (nonlinear_arith);
}

/// A channel of value `c` shown at `level`, as the LED shows it, is the
/// whole part of `c * level / 255`: `out * 255 <= c * level < out * 255 + 255`.
pub open spec fn is_scaled(out: u8, c: u8, level: u8) -> bool {
    out * 255 <= c * level < out * 255 + 255
}

proof fn lemma_scale_exact(c: u8, l: u8)
    ensures
        is_scaled(spec_scale(c, l), c, l),
{
    let x = c as int;
    let y = l as int;
    assert(0 <= (x * y) / 255 <= 255) by (nonlinear_arith)
        requires
            0 <= x <= 255,
            0 <= y <= 255,
    ;
    assert(((x * y) / 255) * 255 <= x * y < ((x * y) / 255) * 255 + 255) by (nonlinear_arith)
        requires
            0 <= x * y,
    ;
}

/// Law: a command that is on shows each channel at exactly the whole part
/// of `channel * level / 255`, so a full channel shows the level itself and
/// any product of at least 255 shows at least 1; one that is off shows
/// black.
pub proof fn lemma_color_exact(on: bool, r: u8, g: u8, b: u8, level: u8)
    ensures
        on ==> is_scaled(spec_color(on, r, g, b, level).r, r, level),
        on ==> is_scaled(spec_color(on, r, g, b, level).g, g, level),
        on ==> is_scaled(spec_color(on, r, g, b, level).b, b, level),
        on && r == 255 ==> spec_color(on, r, g, b, level).r == level,
        on && r * level >= 255 ==> spec_color(on, r, g, b, level).r >= 1,
        !on ==> spec_color(on, r, g, b, level) == (Rgb8 { r: 0, g: 0, b: 0 }),
{
    lemma_scale_exact(r, level);
    lemma_scale_exact(g, level);
    lemma_scale_exact(b, level);
    if on && r == 255 {
        let o = spec_scale(r, level) as int;
        let y = level as int;
        assert(o == y) by (nonlinear_arith)
            requires
                o * 255 <= 255 * y < o * 255 + 255,
        ;
    }
}

/// Law: a brighter level never shows a channel darker: for the same colour,
/// raising the level raises (or keeps) every channel.
pub proof fn lemma_color_monotone(on: bool, r: u8, g: u8, b: u8, l1: u8, l2: u8)
    requires
        l1 <= l2,
    ensures
        spec_color(on, r, g, b, l1).r <= spec_color(on, r, g, b, l2).r,
        spec_color(on, r, g, b, l1).g <= spec_color(on, r, g, b, l2).g,
        spec_color(on, r, g, b, l1).b <= spec_color(on, r, g, b, l2).b,
{
    lemma_scale_monotone(r, l1, l2);
    lemma_scale_monotone(g, l1, l2);
    lemma_scale_monotone(b, l1, l2);
}

proof fn lemma_scale_monotone(c: u8, l1: u8, l2: u8)
    requires
        l1 <= l2,
    ensures
        spec_scale(c, l1) <= spec_scale(c, l2),
{
    lemma_scale_exact(c, l1);
    lemma_scale_exact(c, l2);
    let a = spec_scale(c, l1) as int;
    let b = spec_scale(c, l2) as int;
    let x = c as int;
    assert(x * l1 <= x * l2) by (nonlinear_arith)
        requires
            0 <= x,
            l1 <= l2,
    ;
    assert(a <= b) by (nonlinear_arith)
        requires
            a * 255 <= x * l1,
            x * l1 <= x * l2,
            x * l2 < b * 255 + 255,
    ;
}

} // verus!
