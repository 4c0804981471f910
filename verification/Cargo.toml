[package]
name = "philo_tui"
version = "0.1.0"
edition = "2021"
publish = false

[dependencies]
pulldown-cmark = { version = "=0.13.6", default-features = false }
tokio = { version = "1", default-features = false, features = ["sync"] }
unicode-segmentation = "=1.13.3"
unicode-width = "=0.2.3"
