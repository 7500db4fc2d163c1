[package]
name = "pdf_core"
version = "0.1.0"
edition = "2021"

[dependencies]
lopdf = { version = "=0.34.0", default-features = false, features = ["chrono_time", "nom_parser"] }
image = "=0.25.10"
docx-rs = "=0.4.22"
pdfium-render = "=0.8.37"
thiserror = "=1.0.69"
