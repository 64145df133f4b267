[package]
name = "dino"
version = "0.1.0"
edition = "2021"
publish = false

[dependencies]
anyhow = "*"
blake3 = "*"
clap = { version = "*", features = ["derive"] }
dialoguer = "*"
glob = "*"
rquickjs = "*"
swc_atoms = "*"
swc_bundler = "*"
swc_common = "*"
swc_ecma_ast = "*"
swc_ecma_codegen = "*"
swc_ecma_loader = "*"
swc_ecma_parser = "*"
swc_ecma_transforms_base = "*"
swc_ecma_transforms_typescript = "*"
swc_ecma_visit = "*"
