pub mod adc;
pub mod gpio;
pub mod micromodel;
pub mod audio;
pub mod i2c;
pub mod led;
pub mod pwm;
pub mod flash_collection;
