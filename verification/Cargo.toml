[package]
name = "seqstats"
version = "0.1.0"
edition = "2021"
publish = false

[dependencies]
flate2 = "1"
humansize = "2"
ratatui = "0.26"
crossterm = "0.27"
