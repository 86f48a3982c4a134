[package]
name = "gen_planner"
version = "0.1.0"
edition = "2021"
publish = false

[dependencies]
anyhow = "=1.0.104"
arrayref = "=0.3.9"
candle-core = "=0.6.0"
candle-nn = "=0.6.0"
del-candle = "=0.1.0"
del-canvas-core = "=0.1.1"
del-msh-core = "=0.1.34"
nalgebra = "=0.33.3"
pyo3 = "=0.30.1"
# The four that follow are named by no source file. They hold crates that
# del-candle and candle-core depend on to the versions these were written
# against: with later versions of them neither of the two builds.
del-fem-core = "=0.1.3"
del-geo-core = "=0.1.29"
del-geo-nalgebra = "=0.1.29"
half = "=2.4.1"
