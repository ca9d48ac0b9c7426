//! The host's listener, and the record of the ports that were dialed.
use crate::virtio::vsock::connections::HostVsockListener;
use vstd::prelude::*;

verus! {

/// Where connections that the guest asks for end on the host. Nothing else reaches the listener,
/// so the record holds every port that was dialed, in its order.
pub struct Dialer<L: HostVsockListener> {
    listener: L,
    log: Ghost<Seq<u32>>,
}

impl<L: HostVsockListener> View for Dialer<L> {
    type V = Seq<u32>;

    /// Every port that was dialed, oldest first.
    closed spec fn view(&self) -> Seq<u32> {
        self.log@
    }
}

impl<L: HostVsockListener> Dialer<L> {
    pub closed spec fn listener(&self) -> L {
        self.listener
    }

    pub fn new(listener: L) -> (d: Self)
        ensures
            d.listener() == listener,
            d@ == Seq::<u32>::empty(),
    {
        Dialer { listener, log: Ghost(Seq::empty()) }
    }

    /// Connects to `port`, if something answers there.
    pub fn dial(&mut self, port: u32) -> (r: Option<L::Stream>)
        ensures
            final(self).listener() == old(self).listener(),
            final(self)@ == old(self)@.push(port),
            old(self).listener().connect_gives(port, r),
    {
        let r = self.listener.connect(port);
        proof {
            self.log = Ghost(self.log@.push(port));
        }
        r
    }
}

} // verus!
