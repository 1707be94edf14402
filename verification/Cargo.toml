[package]
name = "particle_gravity"
version = "0.1.0"
edition = "2021"
publish = false

[dependencies]
syn = { version = "=2.0.119", features = ["full"] }
quote = "=1.0.47"
proc-macro2 = "=1.0.107"
bevy = { version = "=0.15.3", default-features = false, features = ["bevy_window", "bevy_render", "bevy_core_pipeline", "bevy_sprite"] }
avian2d = { version = "=0.2.1", default-features = false, features = ["2d", "f32", "parry-f32"] }
