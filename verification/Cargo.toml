[package]
name = "messy_grapefruit"
version = "0.1.0"
edition = "2021"
publish = false

[dependencies]
image = { version = "*", default-features = false, features = ["png"] }
resvg = { version = "*", default-features = false }
uuid = { version = "*", features = ["v4"] }
serde = { version = "*", features = ["derive"] }
serde_json = "*"
ron = "*"
notify = "*"
arboard = { version = "*", default-features = false }
egui = "*"
reqwest = { version = "*", default-features = false, features = ["blocking", "json"] }
