[package]
name = "collaboard"
version = "0.1.0"
edition = "2021"
publish = false

[dependencies]
rand = "0.7"
actix = "0.10"
actix-web = "3"
actix-web-actors = "3"
actix-files = "0.5"
actix-rt = "1"
futures = "0.3"
serde = { version = "1", features = ["derive"] }
serde_json = "1"
json-patch = "0.2"
tera = "1"
dotenv = "0.15"
dotenv_codegen = "0.15"
stdweb = "0.4"
wasm-bindgen = "0.2"
