[package]
name = "treehouse_core"
version = "3.0.0"
edition = "2021"
publish = false

[dependencies]
anyhow = "=1.0.104"
chrono = { version = "=0.4.45", features = ["serde"] }
clap = { version = "=4.6.7", features = ["derive"] }
ctrlc = "=3.5.2"
fd-lock = "=4.0.4"
humantime = "=2.4.0"
# Not used here: keeps a dependency of `tru` at a version that builds with this toolchain.
kstring = "=2.0.2"
nix = { version = "=0.31.3", features = ["signal", "process", "fs"] }
rand = "=0.9.5"
serde = { version = "=1.0.229", features = ["derive"] }
serde_json = { version = "=1.0.154", features = ["preserve_order"] }
sha2 = "=0.10.9"
sysinfo = "=0.39.6"
tempfile = "=3.27.0"
thiserror = "=2.0.21"
toml = "=1.1.8"
tru = "=0.2.2"
