[package]
name = "ix"
version = "0.1.0"
edition = "2021"
publish = false

[dependencies]
anstyle = "=1.0.14"
anyhow = "=1.0.104"
bstr = "=1.13.1"
clap = { version = "4", features = ["derive"] }
gix = { version = "=0.90.0", default-features = false, features = ["sha1", "sha256", "revision"] }
md-5 = "=0.11.0"
nix = { version = "=0.31.3", features = ["signal", "net", "socket"] }
regex = "=1.13.1"
rnix = "=0.12.0"
rowan = "=0.15.19"
serde = { version = "=1.0.229", features = ["derive"] }
serde_json = "=1.0.154"
sha1 = "=0.11.0"
sha2 = "=0.11.1"
thiserror = "2"
toml = "=1.1.8"
tracing = "0.1"
