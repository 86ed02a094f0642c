[package]
name = "kilo_editor"
version = "0.1.0"
edition = "2021"

[dependencies]
unicode-width = "0.1"
termios = "0.3"
term_size = "0.3"
