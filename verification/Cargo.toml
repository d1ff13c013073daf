[package]
name = "trace_log_comparer"
version = "0.1.0"
edition = "2021"
publish = false

[dependencies]
crossterm = "0.25"
itertools = "0.10"
tui = "0.19"
