[package]
name = "type_narrower"
version = "0.1.0"
edition = "2021"
publish = false

[dependencies]
oxc_allocator = "=0.143.0"
oxc_ast = { version = "=0.143.0", features = ["serialize"] }
oxc_estree = { version = "=0.143.0", features = ["serialize"] }
oxc_parser = "=0.143.0"
oxc_span = "=0.143.0"
rayon = "1"
serde = { version = "1", features = ["derive"] }
serde_json = { version = "=1.0.154", features = ["arbitrary_precision", "preserve_order", "unbounded_depth"] }
