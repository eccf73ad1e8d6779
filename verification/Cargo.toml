[package]
name = "timetable_ga"
version = "0.1.0"
edition = "2021"
publish = false

[dependencies]
bincode = "1.3"
clap = "4"
csv = "1"
itertools = "0.12"
mpi = { version = "*", features = ["derive"] }
rand = "0.8"
rayon = "1"
serde = { version = "1", features = ["derive"] }
serde_json = "1"
thiserror = "1"
