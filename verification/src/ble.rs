//! BLE build switch.
use vstd::prelude::*;

verus! {

/// Whether the BLE radio feature is compiled in. This library is built
/// without it: the BLE controller is brought up by the firmware.
pub fn is_enabled() -> (r: bool)
    ensures
        !r,
{
    false
}

} // verus!
