[package]
name = "xtask"
version = "0.1.0"
edition = "2021"
publish = false

[dependencies]
chrono = "=0.4.45"
new_mime_guess = "=4.0.4"
clap = { version = "*", features = ["derive"] }
serde = { version = "*", features = ["derive"] }
serde_yaml = "*"
log = "*"
env_logger = "*"
aws-config = "*"
aws-sdk-s3 = "*"
aws-sdk-cloudfront = "*"
