[package]
name = "syskits"
version = "0.1.0"
edition = "2021"
publish = false

[dependencies]
unicode-width = "=0.2.3"
hex = "=0.4.3"
glob = "=0.3.4"
clap = "=4.6.7"
libc = "=0.2.191"
nix = { version = "=0.31.3", features = ["signal", "hostname", "user", "net"] }
md-5 = "=0.11.0"
sha1 = "=0.11.0"
sha2 = "=0.11.1"
sha3 = "=0.10.9"
blake2b_simd = "=1.0.5"
blake3 = { version = "=1.8.7", features = ["pure"] }
chrono = "=0.4.45"
terminal_size = "=0.4.4"
number_prefix = "=0.4.0"
term_grid = "=0.1.7"
lscolors = "=0.21.0"
filetime = "=0.2.29"
file_diff = "=1.0.0"
