[package]
name = "frcc"
version = "0.1.0"
edition = "2021"
publish = false

[dependencies]
argon2 = { version = "=0.5.3", features = ["std"] }
nanoid = "=0.4.0"
chrono = "=0.4.45"
rxing = { version = "=0.9.3", default-features = false, features = ["svg_write", "aztec", "encoders", "encoding_rs"] }
svg = "=0.18.0"
serde = { version = "=1.0.229", features = ["derive"] }
serde_json = "=1.0.154"
axum = "=0.8.9"
axum-extra = { version = "=0.10.3", features = ["cookie", "multipart"] }
tokio = { version = "=1.54.1", features = ["rt-multi-thread", "macros", "net", "signal"] }
sea-orm = { version = "=1.1.20", default-features = false, features = ["macros", "with-chrono", "sqlx-sqlite", "runtime-tokio-rustls"] }
sea-orm-migration = { version = "=1.1.20", default-features = false, features = ["sqlx-sqlite", "runtime-tokio-rustls"] }
tera = { version = "=1.20.1", default-features = false }
tower-http = { version = "=0.6.11", features = ["compression-br", "compression-deflate", "compression-gzip", "compression-zstd"] }
env_logger = { version = "=0.11.11", default-features = false }
log = "=0.4.35"
once_cell = "=1.21.4"
async-trait = "=0.1.92"
resvg = "=0.49.0"
tmf = "=0.2.1"
tempfile = "=3.27.0"
