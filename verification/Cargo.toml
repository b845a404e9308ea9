[package]
name = "md_editor"
version = "0.1.0"
edition = "2021"
publish = false

[dependencies]
iced = { version = "=0.14.0", default-features = false, features = ["tiny-skia", "markdown", "highlighter", "tokio", "x11"] }
iced_highlighter = "=0.14.0"
rfd = { version = "=0.15.4", default-features = false, features = ["xdg-portal", "tokio"] }
tokio = { version = "1", features = ["fs"] }
