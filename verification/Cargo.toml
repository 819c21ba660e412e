[package]
name = "pdf2clipboard"
version = "0.1.0"
edition = "2021"
publish = false

[dependencies]
urlencoding = "=2.1.3"
eframe = { version = "=0.29.1", default-features = false, features = ["default_fonts", "glow", "wayland", "x11"] }
ehttp = "=0.5.0"
sys-locale = "=0.3.2"
arboard = "=3.7.0"
rayon = "=1.12.0"
log = "=0.4.35"
windows = { version = "=0.52.0", features = ["Win32_Foundation", "Win32_System_DataExchange", "Win32_System_Memory", "Win32_System_SystemInformation"] }
wasm-bindgen = "=0.2.130"
wasm-bindgen-futures = "=0.4.80"
js-sys = "=0.3.107"
web-sys = { version = "=0.3.107", features = ["Window", "Navigator", "Document", "Element", "HtmlCanvasElement"] }
console_log = "1"
