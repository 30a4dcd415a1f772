[package]
name = "rust_practice"
version = "0.1.0"
edition = "2021"
publish = false

[dependencies]
sha2 = "=0.10.9"
fs2 = "=0.4.3"
tokio = { version = "=1.54.1", features = ["rt-multi-thread", "macros", "net", "signal"] }
axum = "=0.7.9"
axum-extra = { version = "=0.9.6", features = ["cookie", "typed-header"] }
openidconnect = "=3.5.0"
reqwest = { version = "=0.12.28", default-features = false, features = ["rustls-tls"] }
tower-http = { version = "=0.5.2", features = ["fs"] }
serde = { version = "=1.0.229", features = ["derive"] }
anyhow = "=1.0.104"
tokio-postgres = "=0.7.18"
deadpool-postgres = "=0.14.2"
tokio-postgres-rustls = "=0.13.0"
rustls = { version = "=0.23.46", default-features = false, features = ["ring", "std", "tls12", "logging"] }
rustls-pemfile = "=2.2.0"
futures = "=0.3.34"
libm = "=0.2.16"
ndarray = "=0.17.2"
csv = "=1.4.0"
wolfe_bfgs = "=0.5.3"
rand = "=0.8.8"
rand_mt = "=4.2.2"
