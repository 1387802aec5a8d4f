[package]
name = "rue"
version = "0.1.0"
edition = "2021"
publish = false

[dependencies]
rowan = "*"
drop_bomb = "*"
unicode-xid = "*"
