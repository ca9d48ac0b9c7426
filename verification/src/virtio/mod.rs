//! Virtio devices and their virtio-mmio transports.
pub mod balloon;
pub mod blk;
pub mod blk_backend;
pub mod blk_transport;
pub mod buffers;
pub mod mmio_laws;
pub mod net;
pub mod net_transport;
pub mod queue;
pub mod queue_state;
pub mod register_laws;
pub mod snapshot_laws;
pub mod regs;
pub mod rng;
pub mod rng_transport;
pub mod transport;
pub mod transport_regs;
pub mod vqueue;
pub mod vsock;
pub mod worker;

pub use blk::VirtioBlk;
pub use blk_transport::VirtioBlkMmio;
pub use net::VirtioNet;
pub use net_transport::VirtioNetMmio;
pub use rng::VirtioRng;
pub use rng_transport::VirtioRngMmio;
pub use transport::VirtioMmio;
pub use vqueue::{Descriptor, QueueConfig, UsedElem, VirtQueueProcessor};
pub use vsock::VirtioVsockMmio;
