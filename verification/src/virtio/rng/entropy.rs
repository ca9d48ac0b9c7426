//! The host's random number source, and the record of what it gave.
//!
//! Nothing else asks the source, so the record holds every request in its order.
use vstd::prelude::*;
use vstd::slice::slice_to_vec;

verus! {

/// `getrandom::Error`, the reason why the system gave no random bytes.
#[verifier::external_type_specification]
#[verifier::external_body]
pub struct ExEntropyFailure(getrandom::Error);

/// `getrandom::fill`: fills `buf` from the system's random number source and gives it back, or
/// gives the reason why it could not. An empty buffer is always filled. Nothing is claimed of the
/// bytes; the buffer keeps its length.
#[verifier::external_body]
fn host_filled(buf: Vec<u8>) -> (r: Result<Vec<u8>, getrandom::Error>)
    ensures
        r matches Ok(v) ==> v@.len() == buf@.len(),
        buf@.len() == 0 ==> r is Ok,
{
    let mut buf = buf;
    match getrandom::fill(&mut buf) {
        Ok(()) => Ok(buf),
        Err(e) => Err(e),
    }
}

/// The host gave no entropy.
#[derive(Debug, Copy, Clone, PartialEq, Eq, Structural)]
pub struct EntropyError;

/// A request for `len` bytes, and what the host gave, if anything.
#[verifier::ext_equal]
pub struct EntropyDraw {
    pub len: nat,
    pub bytes: Option<Seq<u8>>,
}

impl EntropyDraw {
    /// The request was put to the system's random number source, and this is what it gave.
    pub closed spec fn answered(self) -> bool {
        exists|buf: Vec<u8>, r: Result<Vec<u8>, getrandom::Error>|
            #[trigger] call_ensures(host_filled, (buf,), r) && buf@.len() == self.len && self.bytes
                == (match r {
                Ok(v) => Some(v@),
                Err(_) => None,
            })
    }
}

/// The host's random number source.
pub struct HostEntropy {
    log: Ghost<Seq<EntropyDraw>>,
}

impl View for HostEntropy {
    type V = Seq<EntropyDraw>;

    /// Every request, oldest first.
    closed spec fn view(&self) -> Seq<EntropyDraw> {
        self.log@
    }
}

impl HostEntropy {
    pub fn new() -> (h: Self)
        ensures
            h@ == Seq::<EntropyDraw>::empty(),
    {
        HostEntropy { log: Ghost(Seq::empty()) }
    }

    /// Fills `buf` with random bytes of the host: what the source gave is what `buf` then holds.
    /// Where it gave nothing, `buf` stays as it was.
    pub fn fill(&mut self, buf: &mut [u8]) -> (r: Result<(), EntropyError>)
        ensures
            final(buf)@.len() == old(buf)@.len(),
            old(buf)@.len() == 0 ==> r is Ok,
            r is Err ==> final(buf)@ == old(buf)@,
            final(self)@.last().answered(),
            final(self)@ == old(self)@.push(
                EntropyDraw {
                    len: old(buf)@.len(),
                    bytes: match r {
                        Ok(_) => Some(final(buf)@),
                        Err(_) => None,
                    },
                },
            ),
    {
        let room = slice_to_vec(buf);
        let ghost len = buf@.len();
        match host_filled(room) {
            Ok(v) => {
                let ghost draw = EntropyDraw { len, bytes: Some(v@) };
                proof {
                    assert(draw.answered());
                    self.log = Ghost(self.log@.push(draw));
                }
                let mut i: usize = 0;
                while i < v.len()
                    invariant
                        i <= v@.len(),
                        buf@.len() == v@.len(),
                        forall|j: int| 0 <= j < i ==> buf@[j] == v@[j],
                    decreases v@.len() - i,
                {
                    buf[i] = v[i];
                    i += 1;
                }
                assert(buf@ =~= v@);
                Ok(())
            },
            Err(_) => {
                let ghost draw = EntropyDraw { len, bytes: None };
                proof {
                    assert(draw.answered());
                    self.log = Ghost(self.log@.push(draw));
                }
                Err(EntropyError)
            },
        }
    }
}

} // verus!
