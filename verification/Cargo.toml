[package]
name = "query_signatures"
version = "0.1.0"
edition = "2021"
publish = false

[dependencies]
data-encoding = "2"
num_cpus = "1"
ring = "0.17"
serde = "1"
serde_json = "1"
swc_common = "*"
swc_ecma_ast = "*"
swc_ecma_parser = "*"
swc_ecma_visit = "*"
threadpool = "1"
walkdir = "2"
