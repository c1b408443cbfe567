[package]
name = "osos"
version = "0.1.0"
edition = "2021"
publish = false

[dependencies]
bootloader = "0.9"
conquer-once = "*"
crossbeam-queue = "*"
futures-util = "0.3"
lazy_static = "*"
linked_list_allocator = "*"
log = "0.4"
pc-keyboard = "*"
pic8259 = "*"
spin = "*"
uart_16550 = "*"
volatile = "0.2"
x86_64 = "0.15"
