[package]
name = "pico_dvi"
version = "0.1.0"
edition = "2021"
publish = false

[dependencies]
fugit = "*"
cortex-m = "*"
cortex-m-rt = "*"
critical-section = "*"
embedded-hal = "*"
embedded-alloc = "*"
defmt = "*"
defmt-rtt = "*"
panic-probe = "*"
rp235x-hal = "*"
rp-pico = "*"
pio = "0.2"
pio-proc = "0.2"
