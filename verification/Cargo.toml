[package]
name = "scasim"
version = "0.1.0"
edition = "2021"
publish = false

[dependencies]
capitalize = "=0.3.4"
clap = { version = "=4.6.7", features = ["derive"] }
env_logger = "=0.11.11"
flate2 = "=1.1.10"
fst-reader = "=0.17.1"
gxhash = "=3.5.0"
indicatif = "=0.18.6"
itertools = "=0.15.0"
log = "=0.4.34"
miette = "=7.6.0"
ndarray = "=0.16.1"
ndarray-npz = "=0.4.2"
num-format = "=0.4.4"
num-ordinal = "=0.2.0"
plotly = { version = "0.13", features = ["plotly_ndarray"] }
rayon = "=1.12.0"
serde_json = "=1.0.154"
wellen = "0.16"
