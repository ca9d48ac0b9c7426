//! virtio-vsock packets and how they stand in memory.
use crate::bytes::{
    self, copy_range, push_all, push_le16, push_le32, push_le64, read_le16, read_le32, read_le64,
};
use crate::guest_memory;
use crate::virtio::buffers::{self, read_descs};
use vm_memory::GuestMemoryMmap;
use vstd::prelude::*;

verus! {

pub const VSOCK_HEADER_LEN: usize = 44;

pub const MAX_PACKET_BYTES: usize = 65536;

/// The header of a packet.
#[derive(Debug, Default, Clone, Copy, PartialEq, Eq, Structural)]
pub struct VsockPacketHeader {
    pub src_cid: u64,
    pub dst_cid: u64,
    pub src_port: u32,
    pub dst_port: u32,
    pub len: u32,
    pub type_: u16,
    pub op: u16,
    pub flags: u32,
    pub buf_alloc: u32,
    pub fwd_cnt: u32,
}

impl VsockPacketHeader {
    /// The header in the first bytes of `b`.
    pub open spec fn decoded(b: Seq<u8>) -> VsockPacketHeader {
        VsockPacketHeader {
            src_cid: bytes::le64_at(b, 0) as u64,
            dst_cid: bytes::le64_at(b, 8) as u64,
            src_port: bytes::le32_at(b, 16) as u32,
            dst_port: bytes::le32_at(b, 20) as u32,
            len: bytes::le32_at(b, 24) as u32,
            type_: bytes::le16_at(b, 28) as u16,
            op: bytes::le16_at(b, 30) as u16,
            flags: bytes::le32_at(b, 32) as u32,
            buf_alloc: bytes::le32_at(b, 36) as u32,
            fwd_cnt: bytes::le32_at(b, 40) as u32,
        }
    }

    /// The bytes of the header: its fields in order, each least significant byte first.
    pub open spec fn encoded(self) -> Seq<u8> {
        bytes::le64_bytes(self.src_cid as int) + bytes::le64_bytes(self.dst_cid as int)
            + bytes::le32_bytes(self.src_port as int) + bytes::le32_bytes(self.dst_port as int)
            + bytes::le32_bytes(self.len as int) + bytes::le16_bytes(self.type_ as int)
            + bytes::le16_bytes(self.op as int) + bytes::le32_bytes(self.flags as int)
            + bytes::le32_bytes(self.buf_alloc as int) + bytes::le32_bytes(self.fwd_cnt as int)
    }

    /// Reads a header, if `buf` is long enough for one.
    pub fn from_bytes(buf: &[u8]) -> (r: Option<Self>)
        ensures
            r == (if buf@.len() >= 44 {
                Some(VsockPacketHeader::decoded(buf@))
            } else {
                None
            }),
    {
        if buf.len() < VSOCK_HEADER_LEN {
            return None;
        }
        Some(
            VsockPacketHeader {
                src_cid: read_le64(buf, 0),
                dst_cid: read_le64(buf, 8),
                src_port: read_le32(buf, 16),
                dst_port: read_le32(buf, 20),
                len: read_le32(buf, 24),
                type_: read_le16(buf, 28),
                op: read_le16(buf, 30),
                flags: read_le32(buf, 32),
                buf_alloc: read_le32(buf, 36),
                fwd_cnt: read_le32(buf, 40),
            },
        )
    }

    /// The bytes of the header.
    pub fn to_bytes(self) -> (out: [u8; 44])
        ensures
            out@ == self.encoded(),
    {
        let v = self.to_vec();
        let mut out = [0u8;44];
        let mut i: usize = 0;
        while i < 44
            invariant
                i <= 44,
                v@.len() == 44,
                forall|j: int| 0 <= j < i ==> out@[j] == v@[j],
            decreases 44 - i,
        {
            out[i] = v[i];
            i += 1;
        }
        assert(out@ =~= self.encoded());
        out
    }

    fn to_vec(self) -> (out: Vec<u8>)
        ensures
            out@ == self.encoded(),
            out@.len() == 44,
    {
        let mut out: Vec<u8> = Vec::with_capacity(VSOCK_HEADER_LEN);
        push_le64(&mut out, self.src_cid);
        assert(out@ =~= bytes::le64_bytes(self.src_cid as int));
        push_le64(&mut out, self.dst_cid);
        push_le32(&mut out, self.src_port);
        push_le32(&mut out, self.dst_port);
        push_le32(&mut out, self.len);
        push_le16(&mut out, self.type_);
        push_le16(&mut out, self.op);
        push_le32(&mut out, self.flags);
        push_le32(&mut out, self.buf_alloc);
        push_le32(&mut out, self.fwd_cnt);
        out
    }
}

/// Where the fields of a header stand.
proof fn lemma_header_pieces(
    a: Seq<u8>,
    b: Seq<u8>,
    c: Seq<u8>,
    d: Seq<u8>,
    e: Seq<u8>,
    f: Seq<u8>,
    g: Seq<u8>,
    h: Seq<u8>,
    i: Seq<u8>,
    j: Seq<u8>,
    rest: Seq<u8>,
)
    requires
        a.len() == 8,
        b.len() == 8,
        c.len() == 4,
        d.len() == 4,
        e.len() == 4,
        f.len() == 2,
        g.len() == 2,
        h.len() == 4,
        i.len() == 4,
        j.len() == 4,
    ensures
        ({
            let s = a + b + c + d + e + f + g + h + i + j + rest;
            &&& s.len() == 44 + rest.len()
            &&& s.subrange(0, 8) == a
            &&& s.subrange(8, 16) == b
            &&& s.subrange(16, 20) == c
            &&& s.subrange(20, 24) == d
            &&& s.subrange(24, 28) == e
            &&& s.subrange(28, 30) == f
            &&& s.subrange(30, 32) == g
            &&& s.subrange(32, 36) == h
            &&& s.subrange(36, 40) == i
            &&& s.subrange(40, 44) == j
        }),
{
    let s = a + b + c + d + e + f + g + h + i + j + rest;
    assert(s.subrange(0, 8) =~= a);
    assert(s.subrange(8, 16) =~= b);
    assert(s.subrange(16, 20) =~= c);
    assert(s.subrange(20, 24) =~= d);
    assert(s.subrange(24, 28) =~= e);
    assert(s.subrange(28, 30) =~= f);
    assert(s.subrange(30, 32) =~= g);
    assert(s.subrange(32, 36) =~= h);
    assert(s.subrange(36, 40) =~= i);
    assert(s.subrange(40, 44) =~= j);
}

/// A header that was written is read back as it was.
#[verifier::spinoff_prover]
#[verifier::rlimit(60)]
pub proof fn law_vsock_header_round_trip(h: VsockPacketHeader, rest: Seq<u8>)
    ensures
        h.encoded().len() == 44,
        VsockPacketHeader::decoded(h.encoded() + rest) == h,
{
    let e = h.encoded() + rest;
    lemma_header_pieces(
        bytes::le64_bytes(h.src_cid as int),
        bytes::le64_bytes(h.dst_cid as int),
        bytes::le32_bytes(h.src_port as int),
        bytes::le32_bytes(h.dst_port as int),
        bytes::le32_bytes(h.len as int),
        bytes::le16_bytes(h.type_ as int),
        bytes::le16_bytes(h.op as int),
        bytes::le32_bytes(h.flags as int),
        bytes::le32_bytes(h.buf_alloc as int),
        bytes::le32_bytes(h.fwd_cnt as int),
        rest,
    );
    bytes::lemma_le64_found(e, 0, h.src_cid);
    bytes::lemma_le64_found(e, 8, h.dst_cid);
    bytes::lemma_le32_found(e, 16, h.src_port);
    bytes::lemma_le32_found(e, 20, h.dst_port);
    bytes::lemma_le32_found(e, 24, h.len);
    bytes::lemma_le16_found(e, 28, h.type_);
    bytes::lemma_le16_found(e, 30, h.op);
    bytes::lemma_le32_found(e, 32, h.flags);
    bytes::lemma_le32_found(e, 36, h.buf_alloc);
    bytes::lemma_le32_found(e, 40, h.fwd_cnt);
}

/// A header that was read is written as it stood: encoding what was decoded gives the bytes that
/// it was decoded from.
#[verifier::spinoff_prover]
#[verifier::rlimit(60)]
pub proof fn law_vsock_header_reads_all(b: Seq<u8>)
    requires
        b.len() >= 44,
    ensures
        VsockPacketHeader::decoded(b).encoded() == b.take(44),
{
    bytes::lemma_le64_stands(b, 0);
    bytes::lemma_le64_stands(b, 8);
    bytes::lemma_le32_stands(b, 16);
    bytes::lemma_le32_stands(b, 20);
    bytes::lemma_le32_stands(b, 24);
    bytes::lemma_le16_stands(b, 28);
    bytes::lemma_le16_stands(b, 30);
    bytes::lemma_le32_stands(b, 32);
    bytes::lemma_le32_stands(b, 36);
    bytes::lemma_le32_stands(b, 40);
    assert(VsockPacketHeader::decoded(b).encoded() == b.subrange(0, 8) + b.subrange(8, 16)
        + b.subrange(16, 20) + b.subrange(20, 24) + b.subrange(24, 28) + b.subrange(28, 30)
        + b.subrange(30, 32) + b.subrange(32, 36) + b.subrange(36, 40) + b.subrange(40, 44));
    assert(b.subrange(0, 8) + b.subrange(8, 16) =~= b.take(16));
    assert(b.take(16) + b.subrange(16, 20) =~= b.take(20));
    assert(b.take(20) + b.subrange(20, 24) =~= b.take(24));
    assert(b.take(24) + b.subrange(24, 28) =~= b.take(28));
    assert(b.take(28) + b.subrange(28, 30) =~= b.take(30));
    assert(b.take(30) + b.subrange(30, 32) =~= b.take(32));
    assert(b.take(32) + b.subrange(32, 36) =~= b.take(36));
    assert(b.take(36) + b.subrange(36, 40) =~= b.take(40));
    assert(b.take(40) + b.subrange(40, 44) =~= b.take(44));
}

/// A packet: its header and the bytes behind it.
#[derive(Debug, Clone, PartialEq, Eq)]
pub struct VsockPacket {
    pub header: VsockPacketHeader,
    pub data: Vec<u8>,
}

/// What a [`VsockPacket`] holds.
#[verifier::ext_equal]
pub struct PacketView {
    pub header: VsockPacketHeader,
    pub data: Seq<u8>,
}

impl View for VsockPacket {
    type V = PacketView;

    open spec fn view(&self) -> PacketView {
        PacketView { header: self.header, data: self.data@ }
    }
}

impl PacketView {
    /// A packet whose header says how long its data is.
    pub open spec fn made(header: VsockPacketHeader, data: Seq<u8>) -> PacketView {
        PacketView { header: VsockPacketHeader { len: data.len() as u32, ..header }, data }
    }

    /// The bytes of the packet.
    pub open spec fn encoded(self) -> Seq<u8> {
        PacketView::made(self.header, self.data).header.encoded() + self.data
    }

    /// The packet at the start of `b`, if there is a whole one that is not too long.
    pub open spec fn decoded(b: Seq<u8>) -> Option<PacketView> {
        let header = VsockPacketHeader::decoded(b);
        if b.len() >= 44 && header.len <= MAX_PACKET_BYTES && b.len() >= 44 + header.len {
            Some(PacketView { header, data: b.subrange(44, 44 + header.len) })
        } else {
            None
        }
    }
}

impl VsockPacket {
    pub fn new(header: VsockPacketHeader, data: Vec<u8>) -> (p: Self)
        ensures
            p@ == PacketView::made(header, data@),
    {
        let mut header = header;
        header.len = data.len() as u32;
        VsockPacket { header, data }
    }

    /// Reads the packet at the start of `buf`, if there is a whole one that is not too long.
    pub fn from_bytes(buf: &[u8]) -> (r: Option<Self>)
        ensures
            match PacketView::decoded(buf@) {
                Some(p) => r matches Some(q) && q@ == p,
                None => r is None,
            },
    {
        let header = match VsockPacketHeader::from_bytes(buf) {
            Some(header) => header,
            None => {
                return None;
            },
        };
        if header.len > MAX_PACKET_BYTES as u32 {
            return None;
        }
        let data_len: usize = header.len as usize;
        let packet_len: usize = VSOCK_HEADER_LEN + data_len;
        if buf.len() < packet_len {
            return None;
        }
        Some(VsockPacket { header, data: copy_range(buf, VSOCK_HEADER_LEN, packet_len) })
    }

    /// The bytes of the packet.
    pub fn to_bytes(&self) -> (out: Vec<u8>)
        ensures
            out@ == self@.encoded(),
    {
        let mut header = self.header;
        header.len = self.data.len() as u32;
        let mut out = header.to_vec();
        push_all(&mut out, self.data.as_slice());
        out
    }
}

/// A packet that was written is read back as it was, with its true length in the header, when it
/// is not too long.
#[verifier::spinoff_prover]
pub proof fn law_packet_round_trip(header: VsockPacketHeader, data: Seq<u8>, rest: Seq<u8>)
    requires
        data.len() <= MAX_PACKET_BYTES,
    ensures
        PacketView::decoded(PacketView { header, data }.encoded() + rest) == Some(
            PacketView::made(header, data),
        ),
{
    let made = PacketView::made(header, data);
    law_vsock_header_round_trip(made.header, data + rest);
    lemma_packet_pieces(made.header.encoded(), data, rest);
}

/// Where the data of a packet stands.
proof fn lemma_packet_pieces(header: Seq<u8>, data: Seq<u8>, rest: Seq<u8>)
    requires
        header.len() == 44,
    ensures
        (header + data) + rest == header + (data + rest),
        ((header + data) + rest).subrange(44, 44int + data.len()) == data,
{
    assert((header + data) + rest =~= header + (data + rest));
    assert(((header + data) + rest).subrange(44, 44int + data.len()) =~= data);
}

/// The packet that the readable buffers of a chain hold, if they are mapped and not longer than
/// a packet can be.
pub open spec fn packet_in(ram: Map<int, u8>, descs: Seq<(u64, u32)>) -> Option<PacketView> {
    if buffers::total_len(descs) <= MAX_PACKET_BYTES + VSOCK_HEADER_LEN && buffers::all_mapped(
        ram,
        descs,
    ) {
        PacketView::decoded(buffers::gather(ram, descs))
    } else {
        None
    }
}

/// Reads the packet that the buffers of a chain hold.
pub fn read_packet_from_descs(mem: &GuestMemoryMmap, descs: &[(u64, u32)]) -> (r: Option<
    VsockPacket,
>)
    ensures
        match packet_in(guest_memory::guest_bytes(*mem), descs@) {
            Some(p) => r matches Some(q) && q@ == p,
            None => r is None,
        },
{
    let mut total: u64 = 0;
    let mut i: usize = 0;
    assert(descs@.take(0) =~= Seq::<(u64, u32)>::empty());
    while i < descs.len()
        invariant
            i <= descs@.len(),
            total == buffers::total_len(descs@.take(i as int)),
            total <= MAX_PACKET_BYTES + VSOCK_HEADER_LEN,
        decreases descs@.len() - i,
    {
        let (_, len) = descs[i];
        proof {
            assert(descs@.take(i + 1).drop_last() =~= descs@.take(i as int));
            buffers::lemma_total_len_take(descs@, i + 1);
        }
        total = total + len as u64;
        if total > (MAX_PACKET_BYTES + VSOCK_HEADER_LEN) as u64 {
            return None;
        }
        i += 1;
    }
    assert(descs@.take(i as int) =~= descs@);
    match read_descs(mem, descs, descs.len()) {
        Some(buf) => VsockPacket::from_bytes(buf.as_slice()),
        None => None,
    }
}

} // verus!
