use esp_s3_hal::hal::adc::{adc_pins, check_adc_pin, millivolts, read_mv, read_mv_avg, sample_count};
use esp_s3_hal::hal::gpio::{
    available_pins, check_pin, level_str, parse_action, reset_all, Level, PinAction, PinMode,
};

#[test]
fn check_pin_accepts_user_pins() {
    for n in [1u8, 2, 4, 5, 21, 33, 44, 47] {
        assert_eq!(check_pin(n), Ok(()));
    }
}

#[test]
fn check_pin_rejects_reserved_pins() {
    for n in [0u8, 3, 26, 27, 28, 29, 30, 31, 32, 45, 46, 48] {
        assert_eq!(check_pin(n), Err("reserved pin (strapping/flash/PSRAM/LED)"));
    }
}

#[test]
fn check_pin_rejects_missing_pins() {
    for n in [22u8, 23, 24, 25, 49, 200, 255] {
        assert_eq!(check_pin(n), Err("invalid pin number (S3: 0-21, 26-48)"));
    }
}

#[test]
fn available_pins_lists_user_pins_in_order() {
    let expected: Vec<u8> = vec![
        1, 2, 4, 5, 6, 7, 8, 9, 10, 11, 12, 13, 14, 15, 16, 17, 18, 19, 20, 21, 33, 34, 35, 36,
        37, 38, 39, 40, 41, 42, 43, 44, 47,
    ];
    assert_eq!(available_pins(), expected);
}

#[test]
fn reset_all_touches_the_available_pins() {
    assert_eq!(reset_all(), available_pins());
    assert!(!reset_all().contains(&48));
}

#[test]
fn parse_action_names() {
    assert_eq!(parse_action("high"), Some(PinAction::High));
    assert_eq!(parse_action("low"), Some(PinAction::Low));
    assert_eq!(parse_action("toggle"), Some(PinAction::Toggle));
    assert_eq!(parse_action("HIGH"), None);
    assert_eq!(parse_action(""), None);
    assert_eq!(parse_action("high "), None);
}

#[test]
fn level_names_parse_back() {
    assert_eq!(level_str(Level::High), "high");
    assert_eq!(level_str(Level::Low), "low");
    assert_eq!(parse_action(level_str(Level::High)), Some(PinAction::High));
    assert_eq!(parse_action(level_str(Level::Low)), Some(PinAction::Low));
    assert_ne!(PinMode::Input, PinMode::Output);
}

#[test]
fn adc_pin_channels() {
    assert_eq!(check_adc_pin(1), Ok(0));
    assert_eq!(check_adc_pin(2), Ok(1));
    assert_eq!(check_adc_pin(4), Ok(3));
    assert_eq!(check_adc_pin(10), Ok(9));
    assert_eq!(check_adc_pin(3), Err("not an ADC1 pin (ADC1: GPIO1,2,4-10)"));
    assert_eq!(check_adc_pin(11), Err("not an ADC1 pin (ADC1: GPIO1,2,4-10)"));
}

#[test]
fn adc_pins_are_the_checked_pins() {
    let pins = adc_pins();
    assert_eq!(pins, &[1u8, 2, 4, 5, 6, 7, 8, 9, 10][..]);
    for n in 0..=255u8 {
        assert_eq!(pins.contains(&n), check_adc_pin(n).is_ok());
    }
    for p in pins {
        assert_eq!(check_pin(*p), Ok(()));
    }
}

#[test]
fn sample_count_is_clamped() {
    assert_eq!(sample_count(0), 1);
    assert_eq!(sample_count(1), 1);
    assert_eq!(sample_count(8), 8);
    assert_eq!(sample_count(16), 16);
    assert_eq!(sample_count(200), 16);
}

#[test]
fn millivolt_scaling() {
    assert_eq!(millivolts(0), 0);
    assert_eq!(millivolts(4095), 3300);
    assert_eq!(millivolts(2048), 1650);
    assert_eq!(millivolts(1000), 805);
}

#[test]
fn read_mv_single_reading() {
    assert_eq!(read_mv(1, 4095), Ok(3300));
    assert_eq!(read_mv(5, 0), Ok(0));
    assert_eq!(read_mv(3, 100), Err("not an ADC1 pin"));
}

#[test]
fn read_mv_avg_averages_then_scales() {
    assert_eq!(read_mv_avg(1, &[1000, 2000, 3000, 4000]), Ok(millivolts(2500)));
    assert_eq!(read_mv_avg(1, &[1, 2]), Ok(millivolts(1)));
    assert_eq!(read_mv_avg(0, &[1, 2]), Err("not an ADC1 pin"));
    let full = [4095u16; 16];
    assert_eq!(read_mv_avg(9, &full), Ok(3300));
}
