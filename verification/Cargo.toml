[package]
name = "superkeyloader"
version = "0.1.0"
edition = "2021"
publish = false

[dependencies]
base64 = "0.13"
ureq = "2"
structopt = "*"
clap-verbosity-flag = "0.3"
atty = "*"
human-panic = "*"
shellexpand = "*"
log = "*"
pretty_env_logger = "*"
serde_json = "*"
exitfailure = "*"
