[package]
name = "aircode_client"
version = "0.1.0"
edition = "2021"
publish = false

[dependencies]
json = "0.12"
marksman_escape = "0.1"
notify = "4"
promptly = "0.1"
reqwest = "0.9"
rustyline = "1"
scraper = "*"
structopt = "0.2"
