[package]
name = "closedcaption"
version = "0.1.0"
edition = "2021"
publish = false

[dependencies]
bitstream-io = "=4.10.0"
byteorder = "=1.5.0"
cdg = "=0.1.0"
cdg_renderer = "=0.8.0"
cdp-types = "=0.3.0"
cea608-types = "=0.1.5"
cea708-types = "=0.4.1"
chrono = "=0.4.45"
image = { version = "=0.25.10", default-features = false }
serde = { version = "=1.0.229", features = ["derive"] }
serde_json = "=1.0.154"
uuid = { version = "=1.29.0", features = ["v4"] }
