[package]
name = "nada"
version = "0.1.0"
edition = "2021"
publish = false

[dependencies]
chrono = "*"
clap = { version = "*", features = ["derive"] }
google-cloud-container-v1 = "*"
google-cloud-gax = "*"
google-cloud-privilegedaccessmanager-v1 = "*"
google-cloud-resourcemanager-v3 = "*"
google-cloud-wkt = "*"
humantime = "*"
tabwriter = "*"
thiserror = "*"
tokio = { version = "*", features = ["macros", "rt-multi-thread"] }
