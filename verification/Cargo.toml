[package]
name = "cito"
version = "0.3.0"
edition = "2021"
publish = false

[dependencies]
clap = { version = "4", features = ["derive"] }
globset = "0.4"
ignore = "0.4"
notify = "*"
num_cpus = "1"
rayon = "1"
ruff_python_ast = "<=0.0.6"
ruff_python_parser = "<=0.0.6"
serde = { version = "1", features = ["derive"] }
serde_json = "1"
toml = "*"
