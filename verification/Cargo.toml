[package]
name = "hevn"
version = "0.1.0"
edition = "2021"
publish = false

[dependencies]
actix-web = { version = "=4.15.0", default-features = false, features = ["macros"] }
async-trait = "=0.1.92"
dht11 = "=0.3.1"
embedded-hal = { version = "=0.2.7", features = ["unproven"] }
log = "=0.4.34"
reqwest = { version = "=0.13.5", default-features = false, features = ["json"] }
rppal = { version = "=0.22.1", features = ["embedded-hal-0"] }
serde = { version = "=1.0.229", features = ["derive"] }
serde_json = "=1.0.151"
simplelog = "=0.12.2"
structopt = "=0.3.26"
tokio = { version = "=1.53.2", features = ["macros", "rt-multi-thread", "sync"] }
