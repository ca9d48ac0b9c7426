//! Frames of the guest agent's command channel.
//!
//! A frame is a ten-byte header (magic, version, kind, and the payload's length with the most
//! significant byte first) and the payload. A request's payload is its number and the length of
//! the command, both with the most significant byte first, and the command.
use crate::bytes::{copy_range, push_all};
use vstd::prelude::*;

verus! {

pub const FRAME_HEADER_LEN: usize = 10;

pub const VERSION: u8 = 2;

pub const REQUEST: u8 = 1;

pub const START: u8 = 2;

pub const STDOUT: u8 = 3;

pub const STDERR: u8 = 4;

pub const EXIT: u8 = 5;

/// The four bytes that every frame starts with.
pub open spec fn magic() -> Seq<u8> {
    seq![0x56u8, 0x45u8, 0x58u8, 0x32u8]
}

/// The four bytes of `x`, most significant first.
pub open spec fn be32_bytes(x: int) -> Seq<u8> {
    seq![
        ((x / 0x100_0000) % 0x100) as u8,
        ((x / 0x1_0000) % 0x100) as u8,
        ((x / 0x100) % 0x100) as u8,
        (x % 0x100) as u8,
    ]
}

/// The 32-bit integer at offset `i` of `s`, most significant byte first.
pub open spec fn be32_at(s: Seq<u8>, i: int) -> int {
    0x100_0000 * s[i] + 0x1_0000 * s[i + 1] + 0x100 * s[i + 2] + s[i + 3]
}

/// The 64-bit integer at offset `i` of `s`, most significant byte first.
pub open spec fn be64_at(s: Seq<u8>, i: int) -> int {
    0x1_0000_0000 * be32_at(s, i) + be32_at(s, i + 4)
}

/// The bytes of a frame.
pub open spec fn frame_bytes(kind: u8, payload: Seq<u8>) -> Seq<u8> {
    magic() + seq![VERSION, kind] + be32_bytes(payload.len() as int) + payload
}

/// The kind and the payload of the frame that `s` starts with, if it is a whole one.
pub open spec fn frame_at(s: Seq<u8>) -> Option<(u8, Seq<u8>)> {
    if s.len() >= 10 && s.subrange(0, 4) == magic() && s[4] == VERSION && s.len() >= 10 + be32_at(
        s,
        6,
    ) {
        Some((s[5], s.subrange(10, 10 + be32_at(s, 6))))
    } else {
        None
    }
}

/// The number and the command of a request, if the payload holds a whole one.
pub open spec fn request_in(payload: Seq<u8>) -> Option<(u64, Seq<u8>)> {
    if payload.len() >= 12 && payload.len() >= 12 + be32_at(payload, 8) {
        Some(
            (
                be64_at(payload, 0) as u64,
                payload.subrange(12, 12 + be32_at(payload, 8)),
            ),
        )
    } else {
        None
    }
}

fn push_be32(v: &mut Vec<u8>, x: u32)
    ensures
        final(v)@ == old(v)@ + be32_bytes(x as int),
{
    v.push(((x / 0x100_0000) % 0x100) as u8);
    v.push(((x / 0x1_0000) % 0x100) as u8);
    v.push(((x / 0x100) % 0x100) as u8);
    v.push((x % 0x100) as u8);
    assert(v@ =~= old(v)@ + be32_bytes(x as int));
}

fn read_be32(s: &[u8], i: usize) -> (x: u32)
    requires
        i + 4 <= s.len(),
    ensures
        x == be32_at(s@, i as int),
{
    0x100_0000 * (s[i] as u32) + 0x1_0000 * (s[i + 1] as u32) + 0x100 * (s[i + 2] as u32) + s[i
        + 3] as u32
}

/// The bytes of a frame.
pub fn encode_frame(kind: u8, payload: &[u8]) -> (v: Vec<u8>)
    requires
        payload@.len() <= u32::MAX,
    ensures
        v@ == frame_bytes(kind, payload@),
{
    let mut v: Vec<u8> = Vec::new();
    v.push(0x56);
    v.push(0x45);
    v.push(0x58);
    v.push(0x32);
    v.push(VERSION);
    v.push(kind);
    assert(v@ =~= magic() + seq![VERSION, kind]);
    push_be32(&mut v, payload.len() as u32);
    push_all(&mut v, payload);
    v
}

/// The length of the payload that follows a header, if it is one.
pub fn payload_len(header: &[u8]) -> (r: Option<u32>)
    ensures
        r == (if header@.len() >= 10 && header@.subrange(0, 4) == magic() && header@[4] == VERSION {
            Some(be32_at(header@, 6) as u32)
        } else {
            None
        }),
{
    if header.len() < FRAME_HEADER_LEN {
        return None;
    }
    let same = header[0] == 0x56 && header[1] == 0x45 && header[2] == 0x58 && header[3] == 0x32;
    proof {
        let m = header@.subrange(0, 4);
        assert(same ==> m =~= magic());
        assert(m[0] == header@[0] && m[1] == header@[1] && m[2] == header@[2] && m[3]
            == header@[3]);
        if m == magic() {
            assert(m[0] == 0x56 && m[1] == 0x45 && m[2] == 0x58 && m[3] == 0x32);
        }
    }
    if !same || header[4] != VERSION {
        return None;
    }
    Some(read_be32(header, 6))
}

/// Reads the frame that `s` starts with.
pub fn decode_frame(s: &[u8]) -> (r: Option<(u8, Vec<u8>)>)
    ensures
        match frame_at(s@) {
            Some((kind, payload)) => r matches Some((k, p)) && k == kind && p@ == payload,
            None => r is None,
        },
{
    match payload_len(s) {
        None => None,
        Some(len) => {
            let rest: u64 = (s.len() - FRAME_HEADER_LEN) as u64;
            if rest < len as u64 {
                return None;
            }
            let end: usize = FRAME_HEADER_LEN + len as usize;
            Some((s[5], copy_range(s, FRAME_HEADER_LEN, end)))
        },
    }
}

/// The number and the command of a request.
pub fn request_id_and_command(payload: &[u8]) -> (r: Option<(u64, Vec<u8>)>)
    ensures
        match request_in(payload@) {
            Some((id, command)) => r matches Some((i, c)) && i == id && c@ == command,
            None => r is None,
        },
{
    if payload.len() < 12 {
        return None;
    }
    let high: u32 = read_be32(payload, 0);
    let low: u32 = read_be32(payload, 4);
    let id: u64 = 0x1_0000_0000 * (high as u64) + low as u64;
    let len: u32 = read_be32(payload, 8);
    let rest: u64 = (payload.len() - 12) as u64;
    if rest < len as u64 {
        return None;
    }
    let end: usize = 12 + len as usize;
    Some((id, copy_range(payload, 12, end)))
}

/// The bytes of an integer are its digits.
proof fn lemma_be32_digits(x: int)
    requires
        0 <= x <= u32::MAX,
    ensures
        be32_at(be32_bytes(x), 0) == x,
{
    let (d, c) = (x / 0x100_0000, (x / 0x1_0000) % 0x100);
    let (b, a) = ((x / 0x100) % 0x100, x % 0x100);
    assert(x == 0x100_0000 * d + 0x1_0000 * c + 0x100 * b + a);
    assert(d % 0x100 == d);
}

/// A frame that was written is read back as it was, whatever follows it.
#[verifier::spinoff_prover]
pub proof fn law_frame_round_trip(kind: u8, payload: Seq<u8>, rest: Seq<u8>)
    requires
        payload.len() <= u32::MAX,
    ensures
        frame_at(frame_bytes(kind, payload) + rest) == Some((kind, payload)),
{
    let s = frame_bytes(kind, payload) + rest;
    let n = payload.len() as int;
    let b = be32_bytes(n);
    assert(s.subrange(0, 4) =~= magic());
    assert(s[4] == VERSION && s[5] == kind);
    assert(s[6] == b[0] && s[7] == b[1] && s[8] == b[2] && s[9] == b[3]);
    lemma_be32_digits(n);
    assert(be32_at(s, 6) == n);
    assert(s.subrange(10, 10 + n) =~= payload);
}

} // verus!
