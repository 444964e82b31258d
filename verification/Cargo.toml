[package]
name = "pokerhandrange"
version = "0.1.0"
edition = "2021"
publish = false

[dependencies]
cards = "*"
holdem = "*"
pokereval = "*"
rand = "0.4"
