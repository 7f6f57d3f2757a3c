[package]
name = "obfuscator"
version = "0.1.0"
edition = "2021"
publish = false

[dependencies]
rustc-hash = "=2.1.3"
serde_json = "=1.0.151"
swc_atoms = "=10.0.0"
swc_common = "=26.0.0"
swc_ecma_ast = "=29.0.2"
swc_ecma_parser = "=46.0.0"
swc_ecma_visit = "=29.0.0"
swc_ecma_codegen = "=32.0.3"
swc_ecma_transforms = "=64.0.0"
swc_ecma_transforms_base = "=50.0.0"
