[package]
name = "rusty_psql"
version = "0.1.0"
edition = "2021"
publish = false

[dependencies]
anyhow = "=1.0.104"
azure_identity = "=1.0.0"
azure_security_keyvault_secrets = "*"
