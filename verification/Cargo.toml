[package]
name = "ucp"
version = "0.1.0"
edition = "2021"
publish = false

[dependencies]
sodiumoxide = "*"
rustc-serialize = "*"
getopts = "*"
udt = "*"
utp = "*"
daemonize = "*"
syslog = "*"
log = "*"
env_logger = "*"
