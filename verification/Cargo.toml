[package]
name = "biplanevsaliens"
version = "0.1.0"
edition = "2021"
publish = false

[dependencies]
rand = "0.7"
cgmath = "0.17"
gl = "0.14"
glfw = { version = "0.41", default-features = false }
image = "0.19"
noise = "0.6"
sdl2 = { version = "0.34", features = ["ttf", "gfx", "mixer"] }
tobj = "0.1"
