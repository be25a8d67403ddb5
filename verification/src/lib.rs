//! Firmware logic of the homelab ESP32 boards: the shelf display and the room
//! air monitor. Everything here is computation over plain values; the pins,
//! buses, radios and timers live with the firmware that drives it.

pub mod bitbang_i2c;
pub mod bitbang_spi;
pub mod bits;
pub mod bus;
pub mod frame;
pub mod influx;
pub mod layout;
pub mod model;
pub mod monitor;
pub mod net;
pub mod patterns;
pub mod raster;
pub mod refresh;
pub mod render;
pub mod request;
pub mod scd41;
pub mod shtc3;
pub mod st7305;
pub mod text;
