[package]
name = "luckyshot"
version = "0.1.0"
edition = "2021"
publish = false

[dependencies]
atty = "*"
bm25 = "*"
clap = { version = "*", features = ["derive"] }
colored = "*"
dotenvy = "*"
figlet-rs = "*"
glob-match = "*"
reqwest = { version = "*", default-features = false, features = ["json"] }
serde = { version = "*", features = ["derive"] }
serde_json = "*"
tokio = { version = "*", features = ["macros", "rt-multi-thread"] }
