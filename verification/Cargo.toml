[package]
name = "e4pty"
version = "0.3.1"
edition = "2021"
publish = false

[dependencies]
async-trait = "*"
rustix = { version = "1", features = ["fs", "process", "stdio", "termios"] }
rustix-openpty = "0.2"
serde = { version = "1", features = ["derive"] }
strum = { version = "*", features = ["derive"] }
tempfile = "3"
thiserror = "2"
tokio = { version = "1", features = ["io-util", "macros", "net", "process", "rt-multi-thread", "sync", "time", "fs"] }
tracing = "0.1"
windows = { version = "0.61", features = ["Win32_Foundation", "Win32_Security", "Win32_Storage_FileSystem", "Win32_System_Console", "Win32_System_IO", "Win32_System_Pipes", "Win32_System_Threading"] }
