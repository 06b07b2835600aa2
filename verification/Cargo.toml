[package]
name = "imgseqs"
version = "0.1.0"
edition = "2021"
publish = false

[dependencies]
image = { version = "=0.25.10", default-features = false, features = ["png", "jpeg", "bmp", "gif", "ico", "tiff", "dds", "ff", "exr", "hdr", "pnm", "qoi", "tga", "webp"] }
vapoursynth4-rs = "=0.5.1"
libheif-rs = { version = "=3.0.0", features = ["image"] }
dav1d = "=0.11.1"
jpeg2k = "=0.10.1"
jxl = "=0.7.4"
