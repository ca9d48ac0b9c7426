//! Formats and checks that drive a whole machine from outside: the guest agent's frames, the
//! layout of a snapshot file, what a snapshot must hold, and what a guest's traffic may reach.
pub mod ethernet;
pub mod exec_frame;
pub mod guest_exec;
pub mod laws;
pub mod probe;
pub mod pv_state;
pub mod ruleset;
pub mod snapshot_file;
