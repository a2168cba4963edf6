[package]
name = "sourcedigger"
version = "0.1.0"
edition = "2021"
publish = false

[dependencies]
alphanumeric-sort = "=1.5.8"
hex = "=0.4.3"
regex = "=1.13.1"
git2 = { version = "=0.13.25", default-features = false }
subprocess = "=0.2.15"
serde = { version = "=1.0.229", features = ["derive"] }
toml = "=0.5.11"
lazy_static = "=1.5.1"
url = "=2.5.8"
Inflector = "=0.11.4"
rocket = "0.5"
rocket_dyn_templates = { version = "*", features = ["tera"] }
