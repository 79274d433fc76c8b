[package]
name = "pydynox"
version = "0.1.0"
edition = "2021"
publish = false

[dependencies]
base64 = "*"
aws-config = "*"
aws-sdk-dynamodb = "*"
aws-sdk-kms = "*"
tokio = { version = "*", default-features = false, features = ["rt-multi-thread", "time"] }
once_cell = "*"
thiserror = "*"
