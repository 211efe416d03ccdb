[package]
name = "spotdl"
version = "0.1.0"
edition = "2021"
publish = false

[dependencies]
librespot-audio = "=0.8.0"
librespot-core = "=0.8.0"
librespot-metadata = "=0.8.0"
librespot-oauth = "=0.8.0"
clap = { version = "=4.6.7", features = ["derive"] }
directories = "=6.0.0"
indicatif = "=0.18.6"
tokio = { version = "=1.53.2", features = ["macros", "rt-multi-thread", "time"] }
vergen = "~9.0"
