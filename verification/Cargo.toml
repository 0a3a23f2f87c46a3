[package]
name = "yaml_spanned"
version = "0.1.0"
edition = "2021"
publish = false

[dependencies]
libyaml-safer = "=0.3.0"
itertools = "=0.15.0"
itoa = "=1.0.18"
ryu = "=1.0.23"
codespan-reporting = "=0.13.1"
thiserror = "=2.0.21"
serde = "=1.0.229"
