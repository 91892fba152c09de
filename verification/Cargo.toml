[package]
name = "encage_build"
version = "0.1.0"
edition = "2021"
publish = false

[dependencies]
clap = "=4.6.7"
handlebars = "=6.4.4"
semver = "=1.0.28"
serde = { version = "=1.0.229", features = ["derive"] }
serde-value = "=0.7.0"
solvent = "=0.8.3"
toml = "=1.1.8"

[dev-dependencies]
shlex = "=2.0.1"
