//! Verified core of the ESP32-S3 board support library: pin and channel
//! rules, bus state, the manifest and model-blob formats, the BLE command
//! protocol and the audio activity detector, all as plain-value logic.
pub mod ble;
pub mod ble_central;
pub mod hal;
pub mod http;
pub mod net;
pub mod text;
