[package]
name = "elb_log_rank"
version = "0.1.0"
edition = "2021"
publish = false

[dependencies]
structopt = "0.3"
threadpool = "1"
num_cpus = "1"
walkdir = "2"
