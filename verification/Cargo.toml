[package]
name = "calc-lang"
version = "0.1.0"
edition = "2021"
publish = false

[dependencies]
target-lexicon = "=0.13.5"
object = { version = "=0.40.0", features = ["write"] }
serde_json = "=1.0.154"
clap = { version = "=4.6.7", features = ["derive"] }
cc = "=1.11.0"
cranelift-codegen = "=0.132.3"
cranelift-frontend = "=0.132.3"
cranelift-module = "=0.132.3"
cranelift-native = "=0.132.3"
cranelift-object = "=0.132.3"
