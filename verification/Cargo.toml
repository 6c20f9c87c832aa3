[package]
name = "leveldb_orm"
version = "0.1.0"
edition = "2021"
publish = false

[dependencies]
leveldb = "0.8"
db-key = "0.0.5"

[dev-dependencies]
tempdir = "0.3"
