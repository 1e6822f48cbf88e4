//! Bit-banged WS2812 signals, paced by a periodic 3 MHz timer.

pub mod color;
pub mod driver;
pub mod lemmas;
pub mod signal;

pub use color::Rgb8;
pub use driver::Ws2812;
pub use signal::Step;
