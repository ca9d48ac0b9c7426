//! The device model: MMIO bus, virtio-mmio transport, and the virtio-blk, virtio-net, virtio-rng,
//! virtio-vsock, balloon and serial devices.
//!
//! The transport is MMIO only. Every device can save its state and take it back.
pub mod bus;
pub mod bytes;
pub mod dirty;
pub mod guest_memory;
pub mod harness;
pub mod io_loop;
pub mod persist;
pub mod rate_limit;
pub mod serial;
pub mod virtio;

pub use bus::{MmioBus, MmioRange};
pub use persist::Persist;
