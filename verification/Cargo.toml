[package]
name = "language-identifier"
version = "0.1.0"
edition = "2021"
publish = false

[dependencies]
unicode-normalization = "=0.1.26"
fasttext = "=0.8.0"
jieba-rs = "=0.7.4"
icu_segmenter = "=2.4.0"
serde = { version = "=1.0.229", features = ["derive"] }
serde_json = "=1.0.154"
lindera = { version = "=6.2.0", features = ["embed-ipadic"] }
uniffi = { version = "=0.32.2", default-features = false }
