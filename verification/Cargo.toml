[package]
name = "sdmmc"
version = "0.1.0"
edition = "2021"
publish = false

[dependencies]
sdio-host = "0.5.0"
embedded-sdmmc = "0.4.0"
futures = { version = "0.3", default-features = false }
critical-section = "1.1"
cortex-m = "0.7"
atomic-polyfill = "1"
proc-macro2 = "1.0"
quote = "1.0"
syn = "1.0"
