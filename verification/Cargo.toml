[package]
name = "async-os"
version = "0.1.0"
edition = "2021"
publish = false

[dependencies]
rand = { version = "0.8", default-features = false, features = ["small_rng"] }
axerrno = "*"
log = "0.4"
spin = "*"
smoltcp = "*"
heapless = "*"
cfg-if = "1"
pin-project-lite = "*"
xmas-elf = "*"
riscv = "*"
percpu = "*"
page_table_entry = "*"
