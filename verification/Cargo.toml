[package]
name = "rbxl_editor"
version = "0.1.0"
edition = "2021"
publish = false

[dependencies]
serde = { version = "1", features = ["derive"] }
serde_json = "1"
jni = "0.21"
ndk-context = "0.1"
log = "0.4"
image = { version = "0.25", default-features = false, features = ["png", "jpeg"] }
rbx_dom_weak = "*"
