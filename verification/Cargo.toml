[package]
name = "socketio"
version = "0.1.0"
edition = "2021"
publish = false

[dependencies]
adler32 = "1"
async-stream = "0.3"
async-trait = "0.1"
base64 = "0.13"
bytes = "1"
dashmap = "5"
futures-util = { version = "0.3", features = ["sink"] }
http = "0.2"
httparse = "1"
reqwest = { version = "0.11", default-features = false, features = ["stream"] }
serde = { version = "1", features = ["derive"] }
serde_json = "1"
thiserror = "1"
tokio = { version = "1", features = ["io-util", "macros", "net", "rt-multi-thread", "sync", "time"] }
tokio-tungstenite = "0.17"
tracing = "0.1"
tungstenite = "0.17"
url = "2"
