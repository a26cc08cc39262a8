[package]
name = "kibi"
version = "0.1.0"
edition = "2021"
publish = false

[dependencies]
termion = "*"
termios = "*"
