[package]
name = "bevy_bc_ime_text_field"
version = "0.1.0"
edition = "2021"
publish = false

[dependencies]
undo_2 = "*"
arboard = { version = "*", default-features = false }
bevy = { version = "0.18", default-features = false, features = ["bevy_ui", "bevy_text", "bevy_sprite", "bevy_picking", "bevy_window"] }
