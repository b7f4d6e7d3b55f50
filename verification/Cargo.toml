[package]
name = "maestro_model_router"
version = "0.1.0"
edition = "2021"
publish = false

[dependencies]
serde_json = "1"
ctrlc = { version = "3", features = ["termination"] }
