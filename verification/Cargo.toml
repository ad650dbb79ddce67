[package]
name = "ccclog"
version = "0.1.0"
edition = "2021"
publish = false

[dependencies]
regex = "*"
chrono = "*"
Inflector = "*"
anyhow = "*"
exitcode = "*"
log = "*"
pretty_env_logger = "*"
structopt = "*"

[dependencies.git2]
version = "*"
default-features = false
