[package]
name = "bus_drivers"
version = "0.1.0"
edition = "2021"
publish = false

[dependencies]
cortex-m = "0.6.7"
cortex-m-rtfm = "0.5.3"
stm32f103xx = "0.11.0"
