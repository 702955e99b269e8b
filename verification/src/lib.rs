//! Verified protocol logic for a family of STM32 firmware projects: the
//! remote-control (DJI S.Bus) decoding, the serial-screen protocol, the
//! vision-camera line format, NMEA RMC sentences, WS2812 bit encoding and
//! the mode decisions of the rolling-ball controller.

pub mod bytes;
pub mod signal;
pub mod rc;
pub mod screen;
pub mod control;
pub mod vision;
pub mod gps;
pub mod led;
