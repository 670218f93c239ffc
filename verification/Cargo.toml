[package]
name = "captcha"
version = "0.1.0"
edition = "2021"
publish = false

[dependencies]
ab_glyph = "=0.2.32"
image = "=0.25.10"
imageproc = "=0.25.1"
rand = "=0.8.8"
axum = "=0.8.9"
tokio = { version = "=1.53.2", features = ["macros", "net", "rt-multi-thread"] }

[dev-dependencies]
fontdb = "*"
