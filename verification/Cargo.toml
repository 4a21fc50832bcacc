[package]
name = "midi_drum_input"
version = "0.1.0"
edition = "2021"
publish = false

[dependencies]
log = "0.4"
macroquad = "0.4"
midir = "*"
