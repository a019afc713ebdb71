[package]
name = "expense_tracker"
version = "0.1.0"
edition = "2021"
publish = false

[dependencies]
chrono = { version = "0.4", features = ["serde"] }
clap = { version = "4", features = ["derive"] }
directories = "*"
serde = { version = "1", features = ["derive"] }
sqlx = { version = "*", features = ["sqlite", "runtime-tokio", "chrono"] }
