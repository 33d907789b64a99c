[package]
name = "gvdb"
version = "0.1.0"
edition = "2021"
publish = false

[dependencies]
safe-transmute = { version = "=0.11.3", features = ["const_generics"] }
zvariant = { version = "=3.15.2", default-features = false, features = ["gvariant"] }
quick-xml = { version = "=0.23.1", features = ["serialize"] }
serde_json = "=1.0.154"
glib = "=0.15.12"
byteorder = "=1.5.0"
