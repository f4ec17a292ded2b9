[package]
name = "mysql-tray-controller"
version = "1.0.1"
edition = "2021"
publish = false

[dependencies]
anyhow = "1"
tray-icon = "*"
windows-service = "*"
windows-sys = { version = "*", features = ["Win32_Foundation", "Win32_UI_Shell", "Win32_UI_WindowsAndMessaging"] }
winit = "0.30"
winreg = "*"
