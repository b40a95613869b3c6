[package]
name = "diesel_cockroach"
version = "0.1.0"
edition = "2021"
publish = false

[dependencies]
diesel = { version = "*", default-features = false, features = ["postgres_backend", "32-column-tables"] }
