[package]
name = "adocpdf"
version = "0.1.0"
edition = "2021"
publish = false

[dependencies]
asciidoc-parser = "0.29.19"
clap = { version = "4", features = ["derive"] }
thiserror = "2"
typst = "*"
typst-pdf = "*"
