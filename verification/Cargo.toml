[package]
name = "sgxtuner"
version = "0.1.0"
edition = "2021"
publish = false

[dependencies]
rand = "0.4"
xml-rs = "0.8"
yaml-rust = "0.4"
ansi_term = "0.12"
pbr = "1"
csv = "1"
time = "0.1"
libc = "0.2"
ctrlc = "3"
num_cpus = "1"
lazy_static = "1"
zmq = "0.10"
hwloc = "0.5"
ssh2 = "0.9"
perfcnt = "*"
x86 = "*"
raw-cpuid = "*"
influent = "*"
docopt = "1"
rustc-serialize = "0.3"
thread-id = "4"
wait-timeout = "0.2"
futures = "0.1"
futures-cpupool = "0.1"
tokio-core = "0.1"
