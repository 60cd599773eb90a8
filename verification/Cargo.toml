[package]
name = "orion"
version = "0.1.0"
edition = "2021"
publish = false

[dependencies]
anyhow = "1"
fjall = "3"
futures-util = "0.3"
openraft = { version = "0.10.0-alpha", features = ["serde", "type-alias"] }
postcard = { version = "1", default-features = false, features = ["use-std"] }
prost = "0.13"
rusqlite = { version = "*", features = ["bundled", "hooks"] }
serde = { version = "1", features = ["derive"] }
slatedb = { version = "*", default-features = false }
sqlite-plugin = { version = "*", default-features = false, features = ["static"] }
tokio = { version = "1", features = ["full"] }
tokio-stream = { version = "0.1", features = ["net"] }
tonic = { version = "0.12", default-features = false, features = ["transport", "codegen", "prost"] }
uuid = { version = "1", features = ["v4"] }
