[package]
name = "resistance_advisor"
version = "0.1.0"
edition = "2021"
publish = false

[dependencies]
log = "0.4"
simplelog = "0.12"
multi_log = "0.1"
syslog = "6"
