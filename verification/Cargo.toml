[package]
name = "seva"
version = "0.1.0"
edition = "2021"
publish = false

[dependencies]
bpaf = { version = "0.9", features = ["derive"] }
codespan-reporting = "0.11"
colored = "2"
directories = "5"
rustyline = { version = "15", features = ["derive"] }
