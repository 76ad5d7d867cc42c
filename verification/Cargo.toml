[package]
name = "fri_timetable"
version = "0.1.0"
edition = "2021"
publish = false

[dependencies]
actix-governor = "0.8"
actix-web = "4"
regex = "1"
serde = { version = "1", features = ["derive"] }
serde_derive = "1"
serde_json = "1"
soup = "0.5"
ureq = "3"
