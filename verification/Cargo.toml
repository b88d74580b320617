[package]
name = "wayfinder"
version = "0.1.0"
edition = "2021"
publish = false

[dependencies]
anyhow = "=1.0.104"
blake2 = { version = "=0.10.6", default-features = false }
bluer = { version = "=0.17.4", features = ["bluetoothd"] }
bytes = "=1.12.1"
ed25519-dalek = { version = "=2.2.0", default-features = false, features = ["fast"] }
embassy-executor = "=0.10.0"
embassy-nrf = { version = "=0.11.0", features = ["nrf52840"] }
embassy-sync = "=0.8.0"
embedded-hal = "=1.0.0"
embedded-hal-async = "=1.0.0"
embedded-io-adapters = { version = "=0.6.2", features = ["tokio-1"] }
embedded-io-async = "=0.6.1"
futures = "=0.3.34"
getrandom = { version = "=0.2.17", features = ["std"] }
heapless = "=0.9.3"
nrf-softdevice = { version = "*", features = ["nrf52840", "s140", "ble-central", "ble-peripheral"] }
prost = "=0.13.5"
rand = "=0.9.5"
rustls = { version = "=0.23.46", default-features = false, features = ["ring", "std", "tls12"] }
static_cell = "=2.1.1"
subtle = { version = "=2.6.1", default-features = false }
thiserror = "=2.0.21"
tokio = { version = "=1.54.1", features = ["rt-multi-thread", "macros", "io-util", "net", "sync", "time"] }
tokio-rustls = { version = "=0.26.6", default-features = false, features = ["ring", "tls12"] }
tokio-serial = { version = "=5.5.0", default-features = false }
tokio-util = { version = "=0.7.20", features = ["codec"] }
tracing = "=0.1.44"
x25519-dalek = { version = "=2.0.1", default-features = false, features = ["static_secrets"] }
zerocopy = { version = "=0.8.63", features = ["derive"] }
