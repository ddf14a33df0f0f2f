[package]
name = "save_guard"
version = "1.0.7"
edition = "2021"
publish = false

[dependencies]
anyhow = "*"
chrono = { version = "*", features = ["serde"] }
directories = "*"
serde = { version = "*", features = ["derive"] }
serde_json = "*"
sha2 = "*"
tracing = "*"
tracing-subscriber = { version = "*", features = ["env-filter"] }
zip = { version = "*", default-features = false, features = ["deflate"] }
windows-sys = { version = "*", features = ["Win32_Foundation", "Win32_System_Diagnostics_ToolHelp", "Win32_Storage_FileSystem", "Win32_System_Threading"] }
eframe = { version = "*", default-features = false, features = ["glow", "default_fonts", "x11"] }
egui = "*"
rfd = { version = "*", default-features = false, features = ["xdg-portal", "tokio"] }
