[package]
name = "rating_bot"
version = "0.1.0"
edition = "2021"
publish = false

[dependencies]
diesel = { version = "=2.3.13", features = ["postgres", "r2d2"] }
log = "=0.4.34"
takecell = "=0.1.1"
teloxide = "=0.17.0"
tokio = { version = "=1.53.2", features = ["macros", "rt-multi-thread"] }
