//! Runtime GPIO rules: which pins a user may drive, and how a requested
//! action is named. Reserved pins: 0, 3, 26-32 (flash/PSRAM), 45, 46
//! (strapping), 48 (WS2812 LED).
use vstd::prelude::*;

verus! {

/// Highest GPIO number on the ESP32-S3.
pub const MAX_PIN: u8 = 48;

/// GPIO numbers that exist on the chip: 0-21 and 26-48.
pub open spec fn spec_valid_pin(n: int) -> bool {
    (0 <= n <= 21) || (26 <= n <= 48)
}

/// Pins that the board keeps for itself.
pub open spec fn spec_reserved_pin(n: int) -> bool {
    n == 0 || n == 3 || (26 <= n <= 32) || n == 45 || n == 46 || n == 48
}

/// A pin that user code may read and drive.
pub open spec fn spec_user_pin(n: int) -> bool {
    spec_valid_pin(n) && !spec_reserved_pin(n)
}

/// The reason `check_pin` gives for refusing pin `n`.
pub open spec fn spec_pin_error(n: int) -> Seq<char> {
    if !spec_valid_pin(n) {
        "invalid pin number (S3: 0-21, 26-48)"@
    } else {
        "reserved pin (strapping/flash/PSRAM/LED)"@
    }
}

/// The user pins below `k`, in ascending order.
pub open spec fn user_pins_below(k: nat) -> Seq<u8>
    decreases k,
{
    if k == 0 {
        Seq::empty()
    } else {
        let rest = user_pins_below((k - 1) as nat);
        if spec_user_pin(k - 1) {
            rest.push((k - 1) as u8)
        } else {
            rest
        }
    }
}

/// The user pins of the chip, in ascending order.
pub open spec fn spec_user_pins() -> Seq<u8> {
    user_pins_below(MAX_PIN as nat + 1)
}

fn is_valid_pin(n: u8) -> (r: bool)
    ensures
        r == spec_valid_pin(n as int),
{
    n <= 21 || (26 <= n && n <= 48)
}

fn is_reserved(n: u8) -> (r: bool)
    ensures
        r == spec_reserved_pin(n as int),
{
    n == 0 || n == 3 || (26 <= n && n <= 32) || n == 45 || n == 46 || n == 48
}

/// Checks that pin `n` is available for user control; the error names why not.
pub fn check_pin(n: u8) -> (r: Result<(), &'static str>)
    ensures
        r is Ok <==> spec_user_pin(n as int),
        r matches Err(e) ==> e@ == spec_pin_error(n as int),
        !spec_valid_pin(n as int) ==> (r matches Err(e) && e@
            == "invalid pin number (S3: 0-21, 26-48)"@),
        spec_valid_pin(n as int) && spec_reserved_pin(n as int) ==> (r matches Err(e) && e@
            == "reserved pin (strapping/flash/PSRAM/LED)"@),
{
    if !is_valid_pin(n) {
        return Err("invalid pin number (S3: 0-21, 26-48)");
    }
    if is_reserved(n) {
        return Err("reserved pin (strapping/flash/PSRAM/LED)");
    }
    Ok(())
}

/// Pin mode.
#[derive(Debug, Clone, Copy, PartialEq, Eq)]
pub enum PinMode {
    Input,
    Output,
}

/// Pin action from an HTTP request.
#[derive(Debug, Clone, Copy, PartialEq, Eq)]
pub enum PinAction {
    High,
    Low,
    Toggle,
}

/// Logic level of a pin, as the GPIO driver reports it.
#[derive(Debug, Clone, Copy, PartialEq, Eq)]
pub enum Level {
    Low,
    High,
}

/// The name a level is reported under ("high" or "low").
pub open spec fn spec_level_name(l: Level) -> Seq<char> {
    match l {
        Level::High => "high"@,
        Level::Low => "low"@,
    }
}

/// The action that a request string names, if any.
pub open spec fn spec_parse_action(s: Seq<char>) -> Option<PinAction> {
    if s == "high"@ {
        Some(PinAction::High)
    } else if s == "low"@ {
        Some(PinAction::Low)
    } else if s == "toggle"@ {
        Some(PinAction::Toggle)
    } else {
        None
    }
}

/// Pin state as a string for JSON serialization.
pub fn level_str(l: Level) -> (r: &'static str)
    ensures
        r@ == spec_level_name(l),
{
    match l {
        Level::High => "high",
        Level::Low => "low",
    }
}

/// Parses an action string: exactly "high", "low" or "toggle".
pub fn parse_action(s: &str) -> (r: Option<PinAction>)
    ensures
        r == spec_parse_action(s@),
{
    let owned = s.to_owned();
    if owned == "high".to_owned() {
        Some(PinAction::High)
    } else if owned == "low".to_owned() {
        Some(PinAction::Low)
    } else if owned == "toggle".to_owned() {
        Some(PinAction::Toggle)
    } else {
        None
    }
}

/// Lists all user-available pins (valid, not reserved), in ascending order.
pub fn available_pins() -> (v: Vec<u8>)
    ensures
        v@ == spec_user_pins(),
{
    let mut v: Vec<u8> = Vec::new();
    let mut n: u8 = 0;
    while n <= MAX_PIN
        invariant
            n <= MAX_PIN + 1,
            v@ == user_pins_below(n as nat),
        decreases MAX_PIN + 1 - n,
    {
        if check_pin(n).is_ok() {
            v.push(n);
        }
        n = n + 1;
    }
    v
}

/// The pins that a reset of all user pins to input mode touches: every
/// user-available pin, in ascending order (reserved pins are skipped).
/// Switching a user pin to input cannot fail, so each of them is reset;
/// the driver call that switches each pin is made by the caller.
pub fn reset_all() -> (v: Vec<u8>)
    ensures
        v@ == spec_user_pins(),
{
    available_pins()
}

/// The pins below `k` that `user_pins_below(k)` lists are exactly the user
/// pins below `k`, each once, in strictly ascending order.
proof fn lemma_user_pins_below(k: nat)
    requires
        k <= 256,
    ensures
        forall|i: int| 0 <= i < user_pins_below(k).len() ==> {
            &&& spec_user_pin(#[trigger] user_pins_below(k)[i] as int)
            &&& (user_pins_below(k)[i] as int) < k
        },
        forall|i: int, j: int|
            0 <= i < j < user_pins_below(k).len() ==> user_pins_below(k)[i]
                < user_pins_below(k)[j],
        forall|p: int| 0 <= p < k && spec_user_pin(p) ==> user_pins_below(k).contains(p as u8),
    decreases k,
{
    if k > 0 {
        lemma_user_pins_below((k - 1) as nat);
        let rest = user_pins_below((k - 1) as nat);
        if spec_user_pin(k - 1) {
            assert(user_pins_below(k) == rest.push((k - 1) as u8));
            assert forall|p: int| 0 <= p < k && spec_user_pin(p) implies user_pins_below(
                k,
            ).contains(p as u8) by {
                if p == k - 1 {
                    assert(user_pins_below(k)[rest.len() as int] == p as u8);
                } else {
                    let w = choose|w: int| 0 <= w < rest.len() && rest[w] == p as u8;
                    assert(user_pins_below(k)[w] == p as u8);
                }
            }
        }
    }
}

/// Law: a pin is listed by `available_pins` (and reset by `reset_all`) if
/// and only if `check_pin` accepts it, and the list is strictly ascending.
pub proof fn lemma_available_pins_are_checked_pins()
    ensures
        forall|p: u8| #[trigger] spec_user_pins().contains(p) <==> spec_user_pin(p as int),
        forall|i: int, j: int|
            0 <= i < j < spec_user_pins().len() ==> spec_user_pins()[i] < spec_user_pins()[j],
{
    lemma_user_pins_below(49);
    assert forall|p: u8| #[trigger] spec_user_pins().contains(p) implies spec_user_pin(
        p as int,
    ) by {
        let w = choose|w: int| 0 <= w < spec_user_pins().len() && spec_user_pins()[w] == p;
    }
}

/// Law: the name of a level parses back to the action that drives the pin
/// to that level.
pub proof fn lemma_level_name_parses_back(l: Level)
    ensures
        spec_parse_action(spec_level_name(l)) == Some(
            match l {
                Level::High => PinAction::High,
                Level::Low => PinAction::Low,
            },
        ),
{
    reveal_strlit("high");
    reveal_strlit("low");
    assert("low"@.len() != "high"@.len());
}

} // verus!
