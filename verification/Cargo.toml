[package]
name = "mem_gadgets"
version = "0.1.0"
edition = "2021"
publish = false

[dependencies]
ark-ff = "*"
ark-r1cs-std = "*"
ark-relations = "*"
ark-serialize = "*"
ark-bn254 = "*"
nova-snark = "*"
serde = { version = "1", features = ["derive"] }
