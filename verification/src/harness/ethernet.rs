//! Ethernet frames.
use crate::bytes::push_all;
use vstd::prelude::*;

verus! {

/// The length up to which a frame is padded.
pub const MIN_FRAME_LEN: usize = 60;

/// A frame of type IPv4 with that payload, padded with zeros to the minimum length.
pub open spec fn frame_bytes(dst: Seq<u8>, src: Seq<u8>, payload: Seq<u8>) -> Seq<u8> {
    let frame = dst + src + seq![0x08u8, 0x00u8] + payload;
    if frame.len() < 60 {
        frame + Seq::new((60 - frame.len()) as nat, |i: int| 0u8)
    } else {
        frame
    }
}

/// Builds a minimum-length (60-byte) Ethernet frame that holds `magic` as its payload, or a longer
/// one where the payload needs it.
pub fn ethernet_frame(dst: [u8; 6], src: [u8; 6], magic: &[u8]) -> (f: Vec<u8>)
    ensures
        f@ == frame_bytes(dst@, src@, magic@),
{
    let mut f: Vec<u8> = Vec::with_capacity(MIN_FRAME_LEN);
    push_all(&mut f, &dst);
    assert(f@ =~= dst@);
    push_all(&mut f, &src);
    f.push(0x08);
    f.push(0x00);
    assert(f@ =~= dst@ + src@ + seq![0x08u8, 0x00u8]);
    push_all(&mut f, magic);
    let ghost frame = f@;
    while f.len() < MIN_FRAME_LEN
        invariant
            frame.len() <= f@.len(),
            frame.len() < 60 ==> f@.len() <= 60,
            frame.len() >= 60 ==> f@.len() == frame.len(),
            f@ =~= frame + Seq::new((f@.len() - frame.len()) as nat, |i: int| 0u8),
        decreases 60 - f@.len(),
    {
        f.push(0);
    }
    assert(f@ =~= frame_bytes(dst@, src@, magic@));
    f
}

} // verus!
