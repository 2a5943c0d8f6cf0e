[package]
name = "emanate"
version = "0.1.0"
edition = "2021"
publish = false

[dependencies]
async-std = "1"
cargo_toml = "0.15"
cfg-if = "1"
clap = { version = "4", features = ["derive"] }
console = "0.15"
convert_case = "0.6"
crates_io_api = "0.8"
duct = "0.13"
flate2 = "1"
fs_extra = "1"
futures-util = "0.3"
home = "0.5"
pad = "0.1"
serde = { version = "1", features = ["derive"] }
serde_json = "1"
tar = "0.4"
thiserror = "1"
tokio = { version = "1", features = ["macros", "rt-multi-thread"] }
toml = "0.7"
toml_edit = "0.19"
walkdir = "2"
zip = "0.6"
