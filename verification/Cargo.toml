[package]
name = "extrablatt"
version = "0.1.0"
edition = "2021"
publish = false

[dependencies]
select = "0.6"
url = "2"
reqwest = { version = "0.12", default-features = false }
bytes = "1"
thiserror = "2"

[dev-dependencies]
regex = "1"
