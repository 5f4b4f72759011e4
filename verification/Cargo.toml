[package]
name = "ctb_crypt"
version = "0.1.0"
edition = "2021"
publish = false

[dependencies]
aead = "0.5"
chacha20poly1305 = "0.10"
crypto-common = { version = "0.1", features = ["rand_core", "getrandom"] }
base64 = "0.22"
serde = { version = "1", features = ["derive"] }
serde_json = "1"
regex = "1"
num-bigint = "0.4"
num-traits = "0.2"
hmac = "0.12"
sha3 = "0.10"
uuid = { version = "1", features = ["v4", "v7"] }
dirs = "5"
rusqlite = { version = "*", features = ["bundled"] }
rusqlite_migration = "*"
tokio = { version = "1", features = ["macros", "rt-multi-thread"] }
anyhow = "1"
aws-config = { version = "1", default-features = false }
aws-sdk-s3 = { version = "1", default-features = false }
aws-smithy-types = { version = "1", default-features = false }
