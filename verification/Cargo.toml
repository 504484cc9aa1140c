[package]
name = "spell_lexer"
version = "0.1.0"
edition = "2021"
publish = false

[dependencies]
anyhow = "1"
clap = { version = "4", features = ["derive"] }
log = "0.4"
lsp-server = "0.7"
lsp-types = "0.94"
serde_json = "1"
streaming-iterator = "0.1"
zspell = "0.5"
