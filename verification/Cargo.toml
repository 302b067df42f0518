[package]
name = "wgsl_bindgen"
version = "0.1.0"
edition = "2021"
publish = false

[dependencies]
case = "1"
derive_builder = "0.20"
derive_more = "0.99"
heck = "0.5"
miette = "7"
naga = { version = "22", features = ["wgsl-in"] }
prettyplease = "0.2"
proc-macro2 = "1"
quote = "1"
regex = "1"
syn = { version = "2", features = ["full"] }
thiserror = "1"
wgpu-types = "22"
