[package]
name = "pi_world"
version = "0.1.0"
edition = "2021"
publish = false

[dependencies]
bitflags = "=2.13.2"
fixedbitset = "=0.5.7"
pi_append_vec = "=0.5.4"
pi_arr = "=0.32.0"
pi_null = "=0.2.2"
pi_proc_macros = "=0.1.0"
pi_share = "=2.1.0"
smallvec = "=1.16.4"
