[package]
name = "neuroquantum_core"
version = "0.1.0"
edition = "2021"
publish = false

[dependencies]
ml-kem = "0.2"
pqcrypto-mldsa = "*"
pqcrypto-traits = "*"
base64 = "0.22"
chrono = "0.4"
rand = "0.8"
rand_distr = "0.4"
serde = { version = "1", features = ["derive"] }
thiserror = "*"
tracing = "0.1"
tokio = { version = "1", features = ["rt", "macros"] }
async-trait = "*"
nalgebra = "*"
num-complex = "*"
