[package]
name = "coap"
version = "0.1.0"
edition = "2021"
publish = false

[dependencies]
bincode = "1.3"
coap-lite = "0.13"
regex = "1"
percent-encoding = "2"
url = "2"
serde = { version = "1", features = ["derive"] }
serde_json = "1"
ciborium = "0.2"
serde_html_form = "0.2"
serde_path_to_error = "0.1"
tokio = { version = "1", features = ["full"] }
tokio-util = { version = "0.7", features = ["codec"] }
tokio-stream = "0.1"
futures = "0.3"
async-trait = "0.1"
log = "0.4"
lru_time_cache = "0.11"
bytes = "1"
rand = "0.8"
num-traits = "0.2"
num-derive = "0.4"
tokio-tungstenite = "0.21"
native-tls = "0.2"
tokio-native-tls = "0.3"

[dev-dependencies]
quickcheck = "1"
