[package]
name = "typst_docx"
version = "0.1.0"
edition = "2021"
publish = false

[dependencies]
clap = { version = "=4.6.7", features = ["derive", "env"] }
ecow = "=0.3.1"
ttf-parser = "=0.25.1"
typst = "=0.15.1"
typst-kit = { version = "=0.15.1", features = ["embedded-fonts", "scan-fonts", "system-files", "system-downloader", "datetime", "emit-diagnostics"] }
typst-layout = "=0.15.1"
typst-library = "=0.15.1"
zip = { version = "=9.2.2", default-features = false, features = ["deflate"] }

[dev-dependencies]
typst-assets = { version = "=0.15.1", features = ["fonts"] }
