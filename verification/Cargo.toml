[package]
name = "nsm_attest"
version = "0.1.0"
edition = "2021"
publish = false

[dependencies]
p384 = "=0.13.1"
clap = "=2.34.0"
aws-nitro-enclaves-nsm-api = "*"
serde_bytes = "=0.11.19"
serde_json = "=1.0.151"
