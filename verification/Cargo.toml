[package]
name = "espflash"
version = "0.1.0"
edition = "2021"
publish = false

[dependencies]
anyhow = "1"
clap = { version = "3.2", features = ["derive"] }
clap-verbosity-flag = "1.0"
log = "0.4"
md5 = "0.7"
parse_int = "0.6"
strum = "0.24"
strum_macros = "0.24"
tracing-subscriber = "0.3"
update-informer = "0.5"
