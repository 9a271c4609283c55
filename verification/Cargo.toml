[package]
name = "raft_log"
version = "0.1.0"
edition = "2021"
publish = false

[dependencies]
byteorder = "1"
chunked-wal = "*"
clap = { version = "4", features = ["derive"] }
codeq = "*"
crc32fast = "1"
display-more = "*"
fs2 = "0.4"
log = "0.4"
thiserror = "*"
