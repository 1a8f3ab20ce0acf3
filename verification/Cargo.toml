[package]
name = "ddc_core"
version = "0.1.0"
edition = "2021"
publish = false

[dependencies]
winapi = { version = "0.3", features = ["winuser", "windef", "minwindef", "physicalmonitorenumerationapi", "lowlevelmonitorconfigurationapi"] }
systray = "0.4"
