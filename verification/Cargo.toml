[package]
name = "text_3d_graphics"
version = "0.1.0"
edition = "2021"
publish = false

[dependencies]
anstyle = "1"
crossterm = "*"
glam = "*"
thiserror = "*"
tobj = "*"
