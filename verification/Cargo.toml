[package]
name = "orr_desktop"
version = "0.1.0"
edition = "2021"
publish = false

[dependencies]
anyhow = "1"
cpal = "*"
dirs = "6"
muda = "*"
muxide = "*"
openh264 = "0.9"
serde = { version = "1", features = ["derive"] }
serde_json = "1"
tray-icon = "*"
windows = { version = "0.62", features = ["Graphics_Capture", "Graphics_DirectX_Direct3D11", "Win32_Foundation", "Win32_Graphics_Direct3D", "Win32_Graphics_Direct3D11", "Win32_Graphics_Dxgi", "Win32_Graphics_Dxgi_Common", "Win32_Graphics_Gdi", "Win32_System_Com", "Win32_System_WinRT_Direct3D11", "Win32_System_WinRT_Graphics_Capture"] }
windows-sys = { version = "*", features = ["Win32_Foundation", "Win32_Graphics_Gdi", "Win32_System_LibraryLoader", "Win32_UI_Input_KeyboardAndMouse", "Win32_UI_WindowsAndMessaging"] }
winit = "0.30"
