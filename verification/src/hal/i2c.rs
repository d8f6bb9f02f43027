//! I2C master bus rules: the stored bus configuration, the framing of
//! register reads and writes, and how a transfer's outcome is reported.
//! Configure the bus once with `configure_bus(sda, scl, freq_khz)`, then
//! read or write any device address on it (500 ms timeout per transfer).
use vstd::prelude::*;
use crate::hal::gpio::{check_pin, spec_pin_error, spec_user_pin};

verus! {

/// Longest register payload, in bytes.
pub const MAX_TRANSFER: usize = 64;

/// Timeout of one transfer, in milliseconds.
pub const TIMEOUT_MS: u64 = 500;

/// The stored bus configuration. A bus whose SDA pin is 0 is unconfigured.
#[derive(Clone, Copy, Debug, PartialEq, Eq)]
pub struct I2cBus {
    sda_pin: u8,
    scl_pin: u8,
    freq_khz: u8,
}

/// The settings a transfer opens the bus with.
#[derive(Clone, Copy, Debug, PartialEq, Eq)]
pub struct BusSettings {
    pub sda_pin: u8,
    pub scl_pin: u8,
    pub freq_khz: u32,
}

/// How a transfer on the bus ended.
#[derive(Clone, Copy, Debug, PartialEq, Eq)]
pub enum TransferOutcome {
    Done,
    /// NACK or bus error.
    Failed,
    /// No completion within `TIMEOUT_MS`.
    TimedOut,
}

/// Whether `configure_bus` accepts the pins of `call` (sda, scl, kHz):
/// two different user pins.
pub open spec fn config_accepted(call: (u8, u8, u8)) -> bool {
    spec_user_pin(call.0 as int) && spec_user_pin(call.1 as int) && call.0 != call.1
}

/// The stored configuration after `configure_bus(call)` on a bus holding
/// `before`: the call's triple if it is accepted, else `before`.
pub open spec fn configure_step(before: (u8, u8, u8), call: (u8, u8, u8)) -> (u8, u8, u8) {
    if config_accepted(call) {
        call
    } else {
        before
    }
}

/// The stored configuration after the calls `calls`, in order, on a new bus.
pub open spec fn config_after(calls: Seq<(u8, u8, u8)>) -> (u8, u8, u8)
    decreases calls.len(),
{
    if calls.len() == 0 {
        (0u8, 0u8, 100u8)
    } else {
        configure_step(config_after(calls.drop_last()), calls.last())
    }
}

impl I2cBus {
    /// The stored (sda, scl, frequency in kHz).
    pub closed spec fn spec_config(&self) -> (u8, u8, u8) {
        (self.sda_pin, self.scl_pin, self.freq_khz)
    }

    /// The power-on state: no pins, 100 kHz.
    pub fn new() -> (b: Self)
        ensures
            b.spec_config() == (0u8, 0u8, 100u8),
            b.spec_config() == config_after(Seq::empty()),
    {
        I2cBus { sda_pin: 0, scl_pin: 0, freq_khz: 100 }
    }

    /// Configures the bus. Both pins must be user pins (SDA checked first)
    /// and differ; on error the stored configuration is unchanged.
    pub fn configure_bus(&mut self, sda_pin: u8, scl_pin: u8, freq_khz: u8) -> (r: Result<(), &'static str>)
        ensures
            r is Ok <==> (spec_user_pin(sda_pin as int) && spec_user_pin(scl_pin as int) && sda_pin
                != scl_pin),
            r is Ok ==> final(self).spec_config() == (sda_pin, scl_pin, freq_khz),
            r is Err ==> final(self).spec_config() == old(self).spec_config(),
            final(self).spec_config() == configure_step(
                old(self).spec_config(),
                (sda_pin, scl_pin, freq_khz),
            ),
            !spec_user_pin(sda_pin as int) ==> (r matches Err(e) && e@ == spec_pin_error(sda_pin as int)),
            spec_user_pin(sda_pin as int) && !spec_user_pin(scl_pin as int) ==> (r matches Err(e) && e@
                == spec_pin_error(scl_pin as int)),
            spec_user_pin(sda_pin as int) && spec_user_pin(scl_pin as int) && sda_pin == scl_pin
                ==> (r matches Err(e) && e@ == "SDA and SCL must be different pins"@),
    {
        check_pin(sda_pin)?;
        check_pin(scl_pin)?;
        if sda_pin == scl_pin {
            return Err("SDA and SCL must be different pins");
        }
        self.sda_pin = sda_pin;
        self.scl_pin = scl_pin;
        self.freq_khz = freq_khz;
        Ok(())
    }

    /// Whether the bus has been configured.
    pub fn is_configured(&self) -> (r: bool)
        ensures
            r == (self.spec_config().0 != 0),
    {
        self.sda_pin != 0
    }

    /// The stored (sda, scl, frequency in kHz).
    pub fn bus_config(&self) -> (r: (u8, u8, u8))
        ensures
            r == self.spec_config(),
    {
        (self.sda_pin, self.scl_pin, self.freq_khz)
    }

    /// The settings to open the bus with, once it is configured.
    pub fn settings(&self) -> (r: Result<BusSettings, &'static str>)
        ensures
            r == self.settings_spec(),
            self.spec_config().0 == 0 ==> (r matches Err(e) && e@
                == "I2C bus not configured \u{2014} POST /i2c/config first"@),
            self.spec_config().0 != 0 ==> r == Ok::<BusSettings, &'static str>(
                BusSettings {
                    sda_pin: self.spec_config().0,
                    scl_pin: self.spec_config().1,
                    freq_khz: self.spec_config().2 as u32,
                },
            ),
    {
        if !self.is_configured() {
            return Err("I2C bus not configured \u{2014} POST /i2c/config first");
        }
        Ok(BusSettings { sda_pin: self.sda_pin, scl_pin: self.scl_pin, freq_khz: self.freq_khz as u32 })
    }

    /// Prepares a register write: the payload length is checked first, then
    /// the bus configuration; the frame sent is the register followed by
    /// the payload.
    pub fn prepare_write(&self, reg: u8, data: &[u8]) -> (r: Result<(BusSettings, Vec<u8>), &'static str>)
        ensures
            data@.len() > MAX_TRANSFER ==> (r matches Err(e) && e@ == "data too long (max 64 bytes)"@),
            data@.len() <= MAX_TRANSFER && self.spec_config().0 == 0 ==> (r matches Err(e) && e@
                == "I2C bus not configured \u{2014} POST /i2c/config first"@),
            data@.len() <= MAX_TRANSFER && self.spec_config().0 != 0 ==> (r matches Ok((s, frame))
                && s == BusSettings {
                sda_pin: self.spec_config().0,
                scl_pin: self.spec_config().1,
                freq_khz: self.spec_config().2 as u32,
            } && frame@ == seq![reg] + data@),
    {
        if data.len() > MAX_TRANSFER {
            return Err("data too long (max 64 bytes)");
        }
        let settings = self.settings()?;
        let mut frame: Vec<u8> = Vec::new();
        frame.push(reg);
        let mut i: usize = 0;
        while i < data.len()
            invariant
                i <= data@.len(),
                frame@ == seq![reg] + data@.subrange(0, i as int),
            decreases data@.len() - i,
        {
            frame.push(data[i]);
            i = i + 1;
            assert(frame@ == seq![reg] + data@.subrange(0, i as int));
        }
        assert(data@.subrange(0, data@.len() as int) == data@);
        Ok((settings, frame))
    }

    /// Prepares a register read of `len` bytes: the length is checked
    /// first, then the bus configuration.
    pub fn prepare_read(&self, len: usize) -> (r: Result<BusSettings, &'static str>)
        ensures
            len > MAX_TRANSFER ==> (r matches Err(e) && e@ == "len too long (max 64 bytes)"@),
            len <= MAX_TRANSFER ==> r == self.settings_spec(),
            len <= MAX_TRANSFER && self.spec_config().0 == 0 ==> (r matches Err(e) && e@
                == "I2C bus not configured \u{2014} POST /i2c/config first"@),
            len <= MAX_TRANSFER && self.spec_config().0 != 0 ==> r == Ok::<BusSettings, &'static str>(
                BusSettings {
                    sda_pin: self.spec_config().0,
                    scl_pin: self.spec_config().1,
                    freq_khz: self.spec_config().2 as u32,
                },
            ),
    {
        if len > MAX_TRANSFER {
            return Err("len too long (max 64 bytes)");
        }
        self.settings()
    }

    /// What `settings` returns.
    pub closed spec fn settings_spec(&self) -> Result<BusSettings, &'static str> {
        if self.sda_pin == 0 {
            Err("I2C bus not configured \u{2014} POST /i2c/config first")
        } else {
            Ok(BusSettings { sda_pin: self.sda_pin, scl_pin: self.scl_pin, freq_khz: self.freq_khz as u32 })
        }
    }
}

/// The result of a register write that ended with `outcome`.
pub fn write_result(outcome: TransferOutcome) -> (r: Result<(), &'static str>)
    ensures
        outcome == TransferOutcome::Done <==> r is Ok,
        outcome == TransferOutcome::Failed ==> (r matches Err(e) && e@
            == "I2C write failed (NACK or bus error)"@),
        outcome == TransferOutcome::TimedOut ==> (r matches Err(e) && e@
            == "I2C write timeout (500ms)"@),
{
    match outcome {
        TransferOutcome::Done => Ok(()),
        TransferOutcome::Failed => Err("I2C write failed (NACK or bus error)"),
        TransferOutcome::TimedOut => Err("I2C write timeout (500ms)"),
    }
}

/// The result of a register read that ended with `outcome`, having filled
/// `buf`.
pub fn read_result(outcome: TransferOutcome, buf: Vec<u8>) -> (r: Result<Vec<u8>, &'static str>)
    ensures
        outcome == TransferOutcome::Done ==> (r matches Ok(v) && v@ == buf@),
        outcome == TransferOutcome::Failed ==> (r matches Err(e) && e@
            == "I2C read failed (NACK or bus error)"@),
        outcome == TransferOutcome::TimedOut ==> (r matches Err(e) && e@
            == "I2C read timeout (500ms)"@),
{
    match outcome {
        TransferOutcome::Done => Ok(buf),
        TransferOutcome::Failed => Err("I2C read failed (NACK or bus error)"),
        TransferOutcome::TimedOut => Err("I2C read timeout (500ms)"),
    }
}

/// Law: after a successful configuration the bus reports itself configured
/// and gives back exactly the pins and frequency that were stored.
pub proof fn lemma_configure_then_read_back(before: I2cBus, after: I2cBus, sda: u8, scl: u8, freq: u8)
    requires
        spec_user_pin(sda as int),
        spec_user_pin(scl as int),
        sda != scl,
        after.spec_config() == (sda, scl, freq),
    ensures
        after.spec_config().0 != 0,
        after.settings_spec() == Ok::<BusSettings, &'static str>(
            BusSettings { sda_pin: sda, scl_pin: scl, freq_khz: freq as u32 },
        ),
{
}

/// Law: a bus that starts new and then goes through `configure_bus` with
/// each of `calls` in turn (`states[i + 1]` being the bus after `calls[i]`,
/// as `configure_bus` states it) holds `config_after(calls)`.
pub proof fn lemma_bus_follows_calls(states: Seq<I2cBus>, calls: Seq<(u8, u8, u8)>)
    requires
        states.len() == calls.len() + 1,
        states[0].spec_config() == (0u8, 0u8, 100u8),
        forall|i: int|
            0 <= i < calls.len() ==> #[trigger] states[i + 1].spec_config() == configure_step(
                states[i].spec_config(),
                calls[i],
            ),
    ensures
        states.last().spec_config() == config_after(calls),
    decreases calls.len(),
{
    if calls.len() > 0 {
        let n = calls.len() as int;
        let prev = states.drop_last();
        assert forall|i: int| 0 <= i < calls.drop_last().len() implies #[trigger] prev[i + 1].spec_config()
            == configure_step(prev[i].spec_config(), calls.drop_last()[i]) by {
            assert(states[i + 1].spec_config() == configure_step(states[i].spec_config(), calls[i]));
        }
        lemma_bus_follows_calls(prev, calls.drop_last());
        assert(states[n].spec_config() == configure_step(states[n - 1].spec_config(), calls[n - 1]));
    }
}

/// Law: the configuration that the bus reports (`bus_config`) after any
/// sequence of `configure_bus` calls is that of the last accepted call, and
/// the bus then reports itself configured, however many refused calls
/// followed it; with no accepted call it is still (0, 0, 100) and the bus
/// reports itself unconfigured.
pub proof fn lemma_last_accepted_config(calls: Seq<(u8, u8, u8)>)
    ensures
        (forall|j: int| 0 <= j < calls.len() ==> !config_accepted(#[trigger] calls[j]))
            ==> config_after(calls) == (0u8, 0u8, 100u8),
        forall|k: int|
            0 <= k < calls.len() && config_accepted(#[trigger] calls[k]) && (forall|j: int|
                k < j < calls.len() ==> !config_accepted(#[trigger] calls[j])) ==> config_after(calls)
                == calls[k] && config_after(calls).0 != 0,
    decreases calls.len(),
{
    if calls.len() > 0 {
        let n = calls.len() as int;
        let init = calls.drop_last();
        lemma_last_accepted_config(init);
        assert forall|j: int| 0 <= j < init.len() implies init[j] == calls[j] by {}
        assert forall|k: int|
            0 <= k < calls.len() && config_accepted(#[trigger] calls[k]) && (forall|j: int|
                k < j < calls.len() ==> !config_accepted(#[trigger] calls[j])) implies config_after(calls)
            == calls[k] && config_after(calls).0 != 0 by {
            if k < n - 1 {
                assert(!config_accepted(calls[n - 1]));
                assert(init[k] == calls[k]);
                assert forall|j: int| k < j < init.len() implies !config_accepted(#[trigger] init[j]) by {
                    assert(init[j] == calls[j]);
                }
            }
        }
        if forall|j: int| 0 <= j < calls.len() ==> !config_accepted(#[trigger] calls[j]) {
            assert forall|j: int| 0 <= j < init.len() implies !config_accepted(#[trigger] init[j]) by {
                assert(init[j] == calls[j]);
            }
            assert(!config_accepted(calls[n - 1]));
        }
    }
}

} // verus!
