//! virtio-rng: entropy source for the guest.
//!
//! When a VM is snapshotted and restored or cloned, the guest's PRNG state is captured in the
//! memory snapshot, and all clones would go on with the same random numbers. With virtio-rng the
//! guest pulls fresh entropy from the host on each restore or clone, so each clone gets
//! independent randomness even though they started from the same memory snapshot.
use crate::persist::Persist;
use crate::virtio::transport_regs;
use vstd::prelude::*;

pub mod entropy;

pub use entropy::{EntropyError, HostEntropy};

use entropy::EntropyDraw;

verus! {

/// virtio-rng device ID.
pub const DEVICE_ID_RNG: u32 = 4;

/// What a [`VirtioRng`] saves.
#[derive(Debug, Default, Copy, Clone, PartialEq, Eq, Structural)]
pub struct RngState {
    pub bytes_served: u64,
}

/// A virtio-rng device backed by the host kernel CSPRNG.
pub struct VirtioRng {
    pub bytes_served: u64,
    pub host: HostEntropy,
}

/// The state of a [`VirtioRng`].
#[verifier::ext_equal]
pub struct RngView {
    pub bytes_served: u64,
    /// What the host was asked for, and what it gave, oldest first.
    pub draws: Seq<EntropyDraw>,
}

impl View for VirtioRng {
    type V = RngView;

    open spec fn view(&self) -> RngView {
        RngView { bytes_served: self.bytes_served, draws: self.host@ }
    }
}

impl RngView {
    /// The device after a request to the host: the bytes that it gave are counted.
    pub open spec fn drawn(self, d: EntropyDraw) -> RngView {
        RngView {
            bytes_served: if d.bytes is Some {
                transport_regs::counted_by(self.bytes_served, d.len as u64)
            } else {
                self.bytes_served
            },
            draws: self.draws.push(d),
        }
    }
}

impl Default for VirtioRng {
    fn default() -> (r: Self)
        ensures
            r@ == (RngView { bytes_served: 0, draws: Seq::empty() }),
    {
        Self::new()
    }
}

impl VirtioRng {
    pub fn new() -> (r: Self)
        ensures
            r@ == (RngView { bytes_served: 0, draws: Seq::empty() }),
    {
        VirtioRng { bytes_served: 0, host: HostEntropy::new() }
    }

    /// Fill `buf` with random bytes from the host kernel CSPRNG.
    /// Called when the guest submits an "entropy request" on the virtqueue. What the host gave is
    /// what `buf` then holds, and is counted; where it gave nothing, nothing is.
    pub fn fill_entropy(&mut self, buf: &mut [u8]) -> (r: Result<(), EntropyError>)
        ensures
            final(buf)@.len() == old(buf)@.len(),
            old(buf)@.len() == 0 ==> r is Ok,
            r is Err ==> final(buf)@ == old(buf)@,
            final(self)@.draws.last().answered(),
            final(self)@ == old(self)@.drawn(
                EntropyDraw {
                    len: old(buf)@.len(),
                    bytes: match r {
                        Ok(_) => Some(final(buf)@),
                        Err(_) => None,
                    },
                },
            ),
    {
        let filled = self.host.fill(buf);
        match filled {
            Ok(()) => {
                self.bytes_served = self.bytes_served.wrapping_add(buf.len() as u64);
                Ok(())
            },
            Err(e) => Err(e),
        }
    }
}

impl Persist for VirtioRng {
    type State = RngState;

    fn save(&self) -> (s: RngState)
        ensures
            s.bytes_served == self.bytes_served,
    {
        RngState { bytes_served: self.bytes_served }
    }

    /// On restore/clone the count is NOT restored: each clone starts fresh, and the guest pulls
    /// new entropy from the host.
    fn restore(&mut self, _state: RngState)
        ensures
            final(self)@ == (RngView { bytes_served: 0, ..old(self)@ }),
    {
        self.bytes_served = 0;
    }
}

} // verus!
