[package]
name = "flip"
version = "0.1.0"
edition = "2021"
publish = false

[dependencies]
bytemuck = { version = "*", features = ["derive"] }
wgpu = { version = "*", default-features = false, features = ["wgsl", "vulkan"] }
winit = { version = "0.30", default-features = false, features = ["x11", "rwh_06"] }
num-traits = { version = "*", default-features = false, features = ["libm"] }
defmt = "*"
defmt-rtt = "*"
emballoc = "*"
embassy-executor = "*"
embassy-time = "*"
panic-probe = "*"
