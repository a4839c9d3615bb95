//! Interrupt-driven bus protocol state machines for a sensor board with a
//! small display.
//!
//! - `cyclicbuffer`: the fixed-capacity FIFO between producers and the bus
//!   interrupt.
//! - `i2c` and `transaction`: the I2C bus primitives, the decoding of the
//!   bus status, and polling transactions with the law of their chaining.
//! - `ssd1306` and `framing`: the display driver, by polling for its
//!   initialisation and by events for its packets, and what its packets look
//!   like on the wire.
//! - `tempsensor` and `bh1750`: two-phase register transfers on the SPI bus.
//! - `temp_conversion`: from a resistance to a temperature.
//! - `screen` and `monitor`: what the application draws, and when.
//!
//! Nothing here touches a peripheral, and nothing that an interrupt calls
//! allocates: commands and packets come back as values of fixed size. The
//! polling transactions reach the bus through the trait `i2c::I2C`; the
//! event-driven drivers take what the bus reports as a value and return
//! what is to be done on it.

pub mod cyclicbuffer;
pub mod i2c;
pub mod transaction;
pub mod ssd1306;
pub mod framing;
pub mod tempsensor;
pub mod bh1750;
pub mod temp_conversion;
pub mod screen;
pub mod monitor;
