[package]
name = "plinth"
version = "0.1.0"
edition = "2021"
publish = false

[dependencies]
smallvec = "1"
euclid = "0.22"
bitflags = "1"
parking_lot = "0.12"
raw-window-handle = "0.5"
winit = "0.28"
windows = { version = "0.48", features = ["Win32_Foundation", "Win32_Security", "Win32_Graphics_Direct3D", "Win32_Graphics_Direct3D12", "Win32_Graphics_Dxgi", "Win32_Graphics_Dxgi_Common", "Win32_System_Threading"] }
