[package]
name = "nucleo_rtos"
version = "0.1.0"
edition = "2021"
publish = false

[dependencies]
heapless = "=0.8.0"
nb = "=1.1.0"
freertos-rust = "=0.2.0"
cortex-m = "=0.7.10"
cortex-m-rt = "=0.7.7"
stm32f4xx-hal = { version = "=0.20.0", features = ["stm32f446"] }
nucleo-f446re = "=0.1.1"
panic-probe = "=1.0.0"
