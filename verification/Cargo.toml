[package]
name = "bevycraft"
version = "0.1.0"
edition = "2021"
publish = false

[dependencies]
rand = "=0.8.8"
itertools = "=0.10.5"
bracket-geometry = "=0.8.7"
serde = { version = "=1.0.229", features = ["derive"] }
bevy = { version = "=0.7.0", default-features = false, features = ["render", "bevy_winit", "png", "x11"] }
bevy_ecs_tilemap = "=0.6.0"
bevy_asset_loader = { version = "=0.11.0", features = ["dynamic_assets", "stageless"] }
bevy_asset_ron = "=0.4.0"
bevy-ui-navigation = "=0.18.0"
iyes_loopless = "=0.5.1"
console_error_panic_hook = "=0.1.7"
# The derive macros of bevy 0.7 are written against syn with its `full`
# feature but do not ask for it. darling does, and so switches it on for them.
darling = "=0.13.4"
