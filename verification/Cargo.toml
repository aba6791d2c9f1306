[package]
name = "t_display_s3_amoled"
version = "0.1.0"
edition = "2021"
publish = false

[dependencies]
embedded-graphics = "=0.8.2"
embedded-hal = "=1.0.0"
embedded-graphics-framebuf = "=0.5.0"
libm = "=0.2.16"
esp-hal = "=1.2.2"
esp-println = "=0.18.0"
esp-backtrace = "=0.20.0"
esp-alloc = "=0.11.0"
esp-bootloader-esp-idf = "=0.6.0"
bevy_platform = { version = "=0.16.1", default-features = false }
bevy = { version = "=0.16.1", default-features = false }
