use esp_s3_hal::hal::i2c::{read_result, write_result, BusSettings, I2cBus, TransferOutcome};
use esp_s3_hal::hal::led::{LedCommand, LedState, Rgb8};
use esp_s3_hal::hal::pwm::{duty_register, pwm_setup, PwmSetup};

#[test]
fn bus_starts_unconfigured() {
    let bus = I2cBus::new();
    assert!(!bus.is_configured());
    assert_eq!(bus.bus_config(), (0, 0, 100));
    assert_eq!(bus.settings(), Err("I2C bus not configured \u{2014} POST /i2c/config first"));
}

#[test]
fn configure_then_read_back() {
    let mut bus = I2cBus::new();
    assert_eq!(bus.configure_bus(8, 9, 100), Ok(()));
    assert!(bus.is_configured());
    assert_eq!(bus.bus_config(), (8, 9, 100));
    assert_eq!(bus.settings(), Ok(BusSettings { sda_pin: 8, scl_pin: 9, freq_khz: 100 }));
}

#[test]
fn failed_configuration_keeps_old_one() {
    let mut bus = I2cBus::new();
    bus.configure_bus(8, 9, 100).unwrap();
    assert_eq!(bus.configure_bus(10, 10, 50), Err("SDA and SCL must be different pins"));
    assert_eq!(bus.configure_bus(48, 10, 50), Err("reserved pin (strapping/flash/PSRAM/LED)"));
    assert_eq!(bus.configure_bus(10, 23, 50), Err("invalid pin number (S3: 0-21, 26-48)"));
    assert_eq!(bus.bus_config(), (8, 9, 100));
}

#[test]
fn last_accepted_configuration_wins() {
    let mut bus = I2cBus::new();
    assert!(bus.configure_bus(0, 9, 100).is_err());
    assert!(!bus.is_configured());
    assert_eq!(bus.bus_config(), (0, 0, 100));
    bus.configure_bus(8, 9, 100).unwrap();
    bus.configure_bus(4, 5, 200).unwrap();
    assert!(bus.configure_bus(5, 5, 10).is_err());
    assert!(bus.configure_bus(3, 5, 10).is_err());
    assert!(bus.is_configured());
    assert_eq!(bus.bus_config(), (4, 5, 200));
}

#[test]
fn write_frame_and_limits() {
    let mut bus = I2cBus::new();
    assert_eq!(
        bus.prepare_write(0x00, &[1, 2, 3]),
        Err("I2C bus not configured \u{2014} POST /i2c/config first")
    );
    assert_eq!(bus.prepare_write(0x00, &[0u8; 65]), Err("data too long (max 64 bytes)"));
    bus.configure_bus(8, 9, 100).unwrap();
    let (s, frame) = bus.prepare_write(0x10, &[1, 2, 3]).unwrap();
    assert_eq!(s, BusSettings { sda_pin: 8, scl_pin: 9, freq_khz: 100 });
    assert_eq!(frame, vec![0x10, 1, 2, 3]);
    let (_, frame) = bus.prepare_write(0x10, &[7u8; 64]).unwrap();
    assert_eq!(frame.len(), 65);
    assert_eq!(bus.prepare_write(0x10, &[0u8; 65]), Err("data too long (max 64 bytes)"));
}

#[test]
fn read_limits() {
    let mut bus = I2cBus::new();
    assert_eq!(bus.prepare_read(65), Err("len too long (max 64 bytes)"));
    assert_eq!(bus.prepare_read(6), Err("I2C bus not configured \u{2014} POST /i2c/config first"));
    bus.configure_bus(1, 2, 40).unwrap();
    assert_eq!(bus.prepare_read(64), Ok(BusSettings { sda_pin: 1, scl_pin: 2, freq_khz: 40 }));
}

#[test]
fn transfer_outcomes() {
    assert_eq!(write_result(TransferOutcome::Done), Ok(()));
    assert_eq!(write_result(TransferOutcome::Failed), Err("I2C write failed (NACK or bus error)"));
    assert_eq!(write_result(TransferOutcome::TimedOut), Err("I2C write timeout (500ms)"));
    assert_eq!(read_result(TransferOutcome::Done, vec![4, 5]), Ok(vec![4, 5]));
    assert_eq!(read_result(TransferOutcome::Failed, vec![4]), Err("I2C read failed (NACK or bus error)"));
    assert_eq!(read_result(TransferOutcome::TimedOut, vec![]), Err("I2C read timeout (500ms)"));
}

fn cmd(state: &str, r: u8, g: u8, b: u8, level: u8) -> LedCommand {
    LedCommand { state: state.to_string(), r, g, b, level }
}

#[test]
fn led_colour_scaling() {
    assert_eq!(cmd("on", 255, 0, 0, 204).color(), Rgb8 { r: 204, g: 0, b: 0 });
    assert_eq!(cmd("on", 255, 128, 10, 255).color(), Rgb8 { r: 255, g: 128, b: 10 });
    assert_eq!(cmd("on", 100, 200, 50, 128).color(), Rgb8 { r: 50, g: 100, b: 25 });
    assert_eq!(cmd("on", 255, 255, 255, 0).color(), Rgb8::default());
}

#[test]
fn led_off_is_black() {
    assert!(!cmd("off", 255, 255, 255, 255).on());
    assert_eq!(cmd("off", 255, 255, 255, 255).color(), Rgb8 { r: 0, g: 0, b: 0 });
    assert!(!cmd("ON", 1, 2, 3, 255).on());
    assert!(cmd("on", 1, 2, 3, 255).on());
    assert_eq!(cmd("on", 1, 2, 3, 77).level(), 77);
}

#[test]
fn led_state_default_is_off() {
    assert_eq!(LedState::default(), LedState { on: false, r: 0, g: 0, b: 0, level: 0 });
}

#[test]
fn pwm_setup_checks_pin_then_channel() {
    assert_eq!(
        pwm_setup(5, 0, 1000, 50),
        Ok(PwmSetup { pin: 5, channel: 0, timer: 0, freq_hz: 1000, duty_pct: 50 })
    );
    assert_eq!(pwm_setup(5, 6, 1000, 150).unwrap().timer, 3);
    assert_eq!(pwm_setup(5, 2, 1000, 150).unwrap().duty_pct, 100);
    assert_eq!(pwm_setup(5, 8, 1000, 50), Err("channel must be 0-7"));
    assert_eq!(pwm_setup(48, 8, 1000, 50), Err("reserved pin (strapping/flash/PSRAM/LED)"));
    assert_eq!(pwm_setup(22, 0, 1000, 50), Err("invalid pin number (S3: 0-21, 26-48)"));
}

#[test]
fn duty_register_values() {
    assert_eq!(duty_register(0, 50), Ok(511 << 4));
    assert_eq!(duty_register(7, 100), Ok(1023 << 4));
    assert_eq!(duty_register(3, 250), Ok(1023 << 4));
    assert_eq!(duty_register(3, 75), Ok(767 << 4));
    assert_eq!(duty_register(0, 0), Ok(0));
    assert_eq!(duty_register(8, 10), Err("channel must be 0-7"));
}
