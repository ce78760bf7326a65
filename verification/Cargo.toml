[package]
name = "tree_sitter_generate"
version = "0.1.0"
edition = "2021"
publish = false

[dependencies]
regex = "=1.13.1"
serde = { version = "=1.0.229", features = ["derive"] }
serde_json = { version = "=1.0.154", features = ["preserve_order"] }
anyhow = "=1.0.104"
clap = { version = "=4.6.7", features = ["cargo", "env"] }
glob = "=0.3.4"
ansi_term = "=0.12.1"
html-escape = "=0.2.15"
bytecount = "=0.6.9"
semver = "=1.0.28"
indoc = "=2.0.8"
lazy_static = "=1.5.1"
pathdiff = "=0.2.3"
tree-sitter = "=0.27.1"
tree-sitter-loader = "=0.27.1"
tree-sitter-config = "=0.27.1"
rquickjs = { version = "=0.14.0", features = ["loader"] }
url = "=2.5.8"
