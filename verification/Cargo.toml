[package]
name = "reactive_scopes"
version = "0.1.0"
edition = "2021"
publish = false

[dependencies]
oxc_allocator = "0.121"
oxc_ast = "0.121"
oxc_parser = "0.121"
oxc_span = "0.121"
oxc_syntax = "0.121"
