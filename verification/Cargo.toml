[package]
name = "crossload"
version = "0.1.0"
edition = "2021"
publish = false

[dependencies]
anyhow = "=1.0.104"
clap = { version = "=4.6.7", default-features = false, features = ["std", "derive", "help", "usage", "error-context", "suggestions"] }
comfy-table = "=8.0.1"
crossterm = "=0.29.0"
curl = "=0.4.51"
flamberge-keys = "=0.1.1"
flamberge-schemes = "=0.1.1"
fs2 = "=0.4.3"
futures = { version = "=0.3.34", default-features = false, features = ["std"] }
image = { version = "=0.25.10", default-features = false, features = ["jpeg", "png"] }
lopdf = { version = "=0.46.0", default-features = false }
openssl-probe = "=0.1.6"
ratatui = { version = "=0.30.2", default-features = false, features = ["crossterm"] }
roxmltree = "=0.21.2"
rusqlite = { version = "*", features = ["bundled", "backup"] }
serde = { version = "=1.0.229", features = ["derive"] }
serde_json = "=1.0.154"
sha2 = "=0.10.9"
tears = "=0.11.1"
tempfile = "=3.27.0"
tokio = { version = "=1.54.1", features = ["rt-multi-thread", "sync"] }
tungstenite = "=0.30.0"
unicode-width = "=0.2.3"
url = "=2.5.8"
zip = { version = "=7.4.0", default-features = false, features = ["deflate"] }
