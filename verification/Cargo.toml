[package]
name = "gnome_session_restore"
version = "0.1.0"
edition = "2021"
publish = false

[dependencies]
regex = "1"
clap = { version = "3", features = ["derive"] }
xdg = "2"
zbus = "1"
zvariant = "2"
zvariant_derive = "2"
serde = { version = "1", features = ["derive"] }
serde_json = "1"
thiserror = "1"
gio = "*"

[dev-dependencies]
strsim = "0.10"
