[package]
name = "leptos_ntex_unofficial"
version = "0.7.0"
edition = "2021"
publish = false

[dependencies]
any_spawner = "=0.3.0"
base64 = "=0.22.1"
bytes = "=1.12.1"
cap-std = "=4.0.3"
fs4 = "=1.1.0"
futures = "=0.3.34"
hydration_context = "=0.3.2"
leptos = { version = "=0.8.23", features = ["ssr", "nonce"] }
leptos_integration_utils = "=0.8.9"
leptos_meta = { version = "=0.8.7", features = ["ssr"] }
leptos_router = { version = "=0.8.17", features = ["ssr"] }
mime = "=0.3.17"
ntex = "=3.12.3"
ntex-files = "=3.2.0"
ntex-httparse = ">=2.1.0, <2.3.0"
or_poisoned = "=0.1.0"
percent-encoding = "=2.3.2"
rustix = { version = "=1.1.6", features = ["fs"] }
send_wrapper = { version = "=0.6.0", features = ["futures"] }
serde_json = "=1.0.154"
server_fn = "=0.8.13"
sha2 = "=0.10.9"
