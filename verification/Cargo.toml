[package]
name = "win_toolkit"
version = "0.1.0"
edition = "2021"
publish = false

[dependencies]
crossbeam-channel = "=0.5.17"
eframe = { version = "=0.37.0", default-features = false, features = ["default_fonts", "glow", "x11"] }
egui = { version = "=0.37.0", default-features = false, features = ["default_fonts"] }
egui_extras = { version = "=0.37.0", default-features = false, features = ["image"] }
image = { version = "=0.25.10", default-features = false, features = ["png"] }
jiff = "=0.2.39"
thiserror = "=2.0.21"
tracing = "=0.1.44"
tracing-subscriber = { version = "=0.3.23", features = ["env-filter"] }
windows = { version = "=0.58.0", features = ["Win32_Foundation", "Win32_System_Threading", "Win32_UI_Shell", "Win32_UI_WindowsAndMessaging", "Win32_Storage_FileSystem", "Win32_System_SystemInformation", "Win32_System_Com"] }
windows-registry = "=0.6.1"
