[package]
name = "rudium_planner"
version = "0.1.0"
edition = "2021"
publish = false

[dependencies]
chrono = { version = "0.4", default-features = false, features = ["std"] }
egui = { version = "0.27", default-features = false }
egui_extras = { version = "0.27", default-features = false, features = ["datepicker"] }
