[package]
name = "anes_http"
version = "0.1.0"
edition = "2021"
publish = false

[dependencies]
flate2 = "1"
glob = "0.3"
mime_guess = "2"
dotenv = "0.15"
