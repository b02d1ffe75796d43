[package]
name = "seaserpent"
version = "0.1.0"
edition = "2021"
publish = false

[dependencies]
colored = "2"
diesel = { version = "2", features = ["sqlite"] }
displaydoc = "0.2"
fern = "0.6"
log = "0.4"
rt-format = "*"
serde = { version = "1", features = ["derive"] }
serde_json = "1"
structopt = "0.3"
thiserror = "1"
toml = "0.5"
