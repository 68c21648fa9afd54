[package]
name = "arkime_pcap_aggregator"
version = "0.1.0"
edition = "2021"
publish = false

[dependencies]
chrono = { version = "0.4", default-features = false, features = ["std"] }
clap = { version = "3", features = ["derive"] }
exitcode = "1"
itertools = "0.10"
pcap = "*"
regex = "1"
