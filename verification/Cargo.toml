[package]
name = "action_plane"
version = "0.1.0"
edition = "2021"
publish = false

[dependencies]
compact_str = "0.9"
godot = "0.4"
log = "0.4"
