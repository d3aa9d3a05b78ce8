[package]
name = "bfcc"
version = "0.1.0"
edition = "2021"
publish = false

[dependencies]
llvm-ir = { version = "=0.11.3", features = ["llvm-14", "prefer-dynamic"] }
serde = { version = "=1.0.229", features = ["derive"] }
serde_json = "=1.0.154"
termion = "=4.0.6"
