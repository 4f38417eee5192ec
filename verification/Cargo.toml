[package]
name = "radiochron-native-ble"
version = "0.1.0"
edition = "2021"
rust-version = "1.78"
publish = false

[dependencies]
radiochron = { version = "=0.6.0", default-features = false, features = ["std", "ble"] }
serde = { version = "=1.0.229", features = ["derive"] }
dbus = { version = "=0.9.12", features = ["vendored"] }
dispatch2 = "=0.3.1"
objc2 = "=0.6.5"
objc2-core-bluetooth = "=0.3.2"
objc2-foundation = "=0.3.2"
windows = { version = "=0.62.2", features = ["Devices_Bluetooth", "Devices_Bluetooth_Advertisement", "Foundation", "Foundation_Collections", "Storage_Streams"] }
