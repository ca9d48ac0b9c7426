//! The host's tap, and the record of the frames that were handed to it.
//!
//! A [`Tap`] reaches the host through one function, which writes one frame and returns what the
//! host's write returned: how many bytes went, or a negative number. Nothing else calls that
//! function, so the record of a tap holds every frame in its order.
use vstd::prelude::*;

verus! {

/// Handing `frame` to `write` may return `rc`.
pub open spec fn may_return<TAP: Fn(&[u8]) -> i64>(write: TAP, frame: Seq<u8>, rc: i64) -> bool {
    exists|p: &[u8]| p@ == frame && #[trigger] call_ensures(write, (p,), rc)
}

/// A frame that was handed to the host, and what the write returned.
pub struct SentFrame {
    pub frame: Seq<u8>,
    pub rc: i64,
}

impl SentFrame {
    /// `write` may return so for that frame.
    pub open spec fn returned_by<TAP: Fn(&[u8]) -> i64>(self, write: TAP) -> bool {
        may_return(write, self.frame, self.rc)
    }
}

/// The host's tap.
pub struct Tap<TAP> {
    write: TAP,
    log: Ghost<Seq<SentFrame>>,
}

impl<TAP> View for Tap<TAP> {
    type V = Seq<SentFrame>;

    /// Every frame that was handed over, oldest first.
    closed spec fn view(&self) -> Seq<SentFrame> {
        self.log@
    }
}

impl<TAP> Tap<TAP> {
    /// The function that writes a frame.
    pub closed spec fn writer(&self) -> TAP {
        self.write
    }
}

impl<TAP: Fn(&[u8]) -> i64> Tap<TAP> {
    /// Every frame can be handed over, and every result on record is one that the function gives.
    pub open spec fn wf(&self) -> bool {
        &&& forall|p: &[u8]| call_requires(self.writer(), (p,))
        &&& forall|i: int| 0 <= i < self@.len() ==> (#[trigger] self@[i]).returned_by(self.writer())
    }

    pub fn new(write: TAP) -> (t: Self)
        requires
            forall|p: &[u8]| call_requires(write, (p,)),
        ensures
            t.wf(),
            t.writer() == write,
            t@ == Seq::<SentFrame>::empty(),
    {
        Tap { write, log: Ghost(Seq::empty()) }
    }

    /// Hands over a frame; returns what the write returned.
    pub fn send(&mut self, frame: &[u8]) -> (rc: i64)
        requires
            old(self).wf(),
        ensures
            final(self).wf(),
            final(self).writer() == old(self).writer(),
            final(self)@ == old(self)@.push(SentFrame { frame: frame@, rc }),
    {
        assert(call_requires(self.writer(), (frame,)));
        let rc: i64 = (self.write)(frame);
        let ghost e = SentFrame { frame: frame@, rc };
        proof {
            assert(may_return(self.write, frame@, rc));
            self.log = Ghost(self.log@.push(e));
            assert forall|p: &[u8]| call_requires(self.writer(), (p,)) by {
                assert(call_requires(old(self).writer(), (p,)));
            }
            assert forall|i: int| 0 <= i < self@.len() implies (#[trigger] self@[i]).returned_by(
                self.writer(),
            ) by {
                if i < old(self)@.len() {
                    assert(old(self)@[i].returned_by(old(self).writer()));
                }
            }
        }
        rc
    }
}

} // verus!
