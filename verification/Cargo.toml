[package]
name = "tictactoe_server"
version = "0.1.0"
edition = "2021"

[dependencies]
threadpool = "1.8"
