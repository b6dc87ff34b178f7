[package]
name = "bokatvattid_api"
version = "0.1.0"
edition = "2021"
publish = false

[dependencies]
actix-web = { version = "4", default-features = false, features = ["macros"] }
chrono = "0.4"
ics = "0.5"
reqwest = { version = "0.12", default-features = false, features = ["json"] }
serde = "1"
serde_derive = "1"
