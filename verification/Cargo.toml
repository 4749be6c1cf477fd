[package]
name = "rustray"
version = "0.1.0"
edition = "2021"
publish = false

[dependencies]
uuid = { version = "=1.29.0", features = ["v4"] }
bcrypt = "=0.15.1"
jsonwebtoken = "=9.3.1"
serde = { version = "=1.0.229", features = ["derive"] }
serde_json = { version = "=1.0.154", features = ["preserve_order"] }
tokio = { version = "=1.54.1", features = ["full"] }
chrono = { version = "=0.4.45", features = ["serde"] }
actix-web = "=4.18.1"
actix-cors = "=0.7.2"
thiserror = "=1.0.69"
anyhow = "=1.0.104"
log = "=0.4.35"
env_logger = "=0.10.2"
rand = "=0.8.8"
once_cell = "=1.21.4"
async-trait = "=0.1.92"
num_cpus = "=1.17.0"
sysinfo = "=0.29.11"
systemstat = "=0.2.7"
sys-info = "=0.9.1"
tracing = "=0.1.44"
sqlx = { version = "=0.7.4", default-features = false, features = ["sqlite", "runtime-tokio", "uuid", "chrono", "macros"] }
