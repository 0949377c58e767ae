[package]
name = "wirefilter_scheme"
version = "0.1.0"
edition = "2021"
publish = false

[dependencies]
regex-automata = { version = "0.4", default-features = false, features = ["std", "syntax", "meta", "nfa-pikevm", "nfa-backtrack", "hybrid", "perf-literal"] }
serde = { version = "1", features = ["derive"] }
serde_json = "1"
thiserror = "1"
parking_lot = "0.12"
fnv = "1"

[dev-dependencies]
indoc = "2"
