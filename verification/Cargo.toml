[package]
name = "spotlight_win"
version = "0.1.0"
edition = "2021"
publish = false

[dependencies]
chrono = "=0.4.45"
chrono-tz = "=0.10.4"
evalexpr = "=13.1.0"
dirs = "=7.0.0"
open = "=5.4.5"
serde = { version = "=1.0.229", features = ["derive"] }
windows = { version = "=0.58.0", features = ["Win32_Foundation", "Win32_System_Registry", "Win32_System_Power", "Win32_System_LibraryLoader", "Win32_UI_Input_KeyboardAndMouse", "Win32_UI_WindowsAndMessaging"] }

[dev-dependencies]
regex-lite = "=0.1.9"
