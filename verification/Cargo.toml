[package]
name = "wow_ls"
version = "0.1.0"
edition = "2021"
publish = false

[dependencies]
rowan = "0.16"
m_lexer = "*"
line-numbers = "*"
lsp-server = "*"
lsp-types = "*"
serde = "1"
serde_json = "1"
