[package]
name = "rose_title_changer"
version = "0.1.0"
edition = "2021"
publish = false

[dependencies]
winapi = { version = "0.3", features = ["winuser", "memoryapi", "processthreadsapi", "tlhelp32", "handleapi", "winnt", "minwindef", "windef", "libloaderapi"] }
sysinfo = "*"
widestring = "*"
