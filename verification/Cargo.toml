[package]
name = "flock_index"
version = "0.1.0"
edition = "2021"
publish = false

[dependencies]
borsh = { version = "1", features = ["derive"] }
bytemuck = "1"
solana-program = "2"
spl-token = { version = "7", features = ["no-entrypoint"] }
