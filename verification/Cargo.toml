[package]
name = "freedomwall"
version = "0.1.0"
edition = "2021"
publish = false

[dependencies]
smallvec = "1"
serde = { version = "1", features = ["derive"] }
serde_json = "1"
platform-dirs = "*"
url = "2"
urlencoding = "2"
mime_guess = "2"
rfd = "*"
wry = "*"
tao = "*"
objc = "*"
core-foundation = "*"
core-graphics = "*"
windows-sys = { version = "*", features = ["Win32_Foundation", "Win32_UI_WindowsAndMessaging", "Win32_Graphics_Dwm"] }
