[package]
name = "pglite_buildtools"
version = "0.1.0"
edition = "2021"
publish = false

[dependencies]
anyhow = "=1.0.104"
clang = { version = "=2.1.0", features = ["runtime", "clang_10_0"] }
log = "=0.4.34"
num_cpus = "=1.17.0"
object = "=0.40.0"
serde = { version = "=1.0.229", features = ["derive"] }
serde_json = "=1.0.151"
slog = "=2.8.2"
slog-scope = "=4.4.1"
slog-stdlog = "=4.1.1"
sloggers = "=2.2.0"
structopt = "=0.3.26"
