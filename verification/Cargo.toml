[package]
name = "totp_win_app"
version = "0.1.0"
edition = "2021"
publish = false

[dependencies]
totp-lite = "2.0"
windows = { version = "0.52", features = ["Win32_Foundation", "Win32_Graphics_Gdi", "Win32_System_LibraryLoader", "Win32_UI_Controls", "Win32_UI_WindowsAndMessaging", "Win32_System_DataExchange", "Win32_System_Memory"] }
