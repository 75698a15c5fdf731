[package]
name = "album_tags"
version = "0.1.0"
edition = "2021"
publish = false

[dependencies]
anyhow = "*"
dsf = "*"
id3 = "*"
imghdr = "*"
metaflac = "*"
mp4ameta = "*"
unicode-normalization = "*"
