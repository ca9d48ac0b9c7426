//! virtio-blk request parsing and validation.
//!
//! A volume is one virtio-blk device with one request virtqueue; requests follow the standard
//! `virtio_blk_req` (type, sector, data, status).
use crate::bytes::{self, read_le32, read_le64};
use crate::persist::Persist;
use vstd::prelude::*;

pub mod req_type;
pub mod status;

verus! {

/// The virtio-blk request header as the guest lays it out in the descriptor chain (virtio 1.x,
/// section 5.2.5). 16 bytes: type (u32) + reserved (u32) + sector (u64).
#[derive(Debug, Default, Copy, Clone, PartialEq, Eq, Structural)]
pub struct BlkReqHeader {
    pub req_type: u32,
    pub reserved: u32,
    pub sector: u64,
}

impl BlkReqHeader {
    /// The fixed header size before the data buffer.
    pub const SIZE: usize = 16;

    /// The header that the first 16 bytes of `b` encode.
    pub open spec fn decoded(b: Seq<u8>) -> BlkReqHeader {
        BlkReqHeader {
            req_type: bytes::le32_at(b, 0) as u32,
            reserved: bytes::le32_at(b, 4) as u32,
            sector: bytes::le64_at(b, 8) as u64,
        }
    }

    /// The 16 bytes that encode the header.
    pub open spec fn encoded(self) -> Seq<u8> {
        bytes::le32_bytes(self.req_type as int) + bytes::le32_bytes(self.reserved as int)
            + bytes::le64_bytes(self.sector as int)
    }

    /// Parse a header from the raw bytes the guest placed in the first readable descriptor of
    /// the chain. Returns None if the slice is too short.
    pub fn from_bytes(b: &[u8]) -> (r: Option<Self>)
        ensures
            r == (if b@.len() < 16 {
                None::<BlkReqHeader>
            } else {
                Some(BlkReqHeader::decoded(b@))
            }),
    {
        if b.len() < 16 {
            return None;
        }
        Some(
            BlkReqHeader {
                req_type: read_le32(b, 0),
                reserved: read_le32(b, 4),
                sector: read_le64(b, 8),
            },
        )
    }

    /// Is this a read (device to guest) request?
    pub fn is_read(&self) -> (r: bool)
        ensures
            r == (self.req_type == req_type::IN),
    {
        self.req_type == req_type::IN
    }

    /// Is this a write (guest to device) request?
    pub fn is_write(&self) -> (r: bool)
        ensures
            r == (self.req_type == req_type::OUT || self.req_type == req_type::WRITE_ZEROES),
    {
        self.req_type == req_type::OUT || self.req_type == req_type::WRITE_ZEROES
    }
}

/// A header that the guest encodes is the header that is parsed.
pub proof fn law_header_round_trip(h: BlkReqHeader)
    ensures
        h.encoded().len() == 16,
        BlkReqHeader::decoded(h.encoded()) == h,
{
    let e = h.encoded();
    bytes::lemma_le32_round_trip(h.req_type);
    bytes::lemma_le32_round_trip(h.reserved);
    bytes::lemma_le64_round_trip(h.sector);
    bytes::lemma_le_in_piece(e, 0, 4, 0);
    bytes::lemma_le_in_piece(e, 4, 8, 4);
    bytes::lemma_le_in_piece(e, 8, 16, 8);
    assert(e.subrange(0, 4) =~= bytes::le32_bytes(h.req_type as int));
    assert(e.subrange(4, 8) =~= bytes::le32_bytes(h.reserved as int));
    assert(e.subrange(8, 16) =~= bytes::le64_bytes(h.sector as int));
}

/// A parsed virtio-blk request, ready to service.
#[derive(Debug, Copy, Clone, PartialEq, Eq, Structural)]
pub struct ParsedBlkReq {
    pub header: BlkReqHeader,
    /// Byte offset into the backing file this request targets.
    pub file_offset: u64,
    /// Length of the data buffer (in bytes).
    pub data_len: u64,
}

/// Errors from parsing a block request.
#[derive(Debug, Copy, Clone, PartialEq, Eq, Structural)]
pub enum BlkParseError {
    HeaderTooShort(usize),
    UnknownReqType(u32),
    OutOfBounds { sector: u64, n: u64, sectors: u64 },
    Overflow,
}

/// The request types that a device knows.
pub open spec fn known_req_type(t: u32) -> bool {
    ||| t == req_type::IN
    ||| t == req_type::OUT
    ||| t == req_type::FLUSH
    ||| t == req_type::GET_ID
    ||| t == req_type::DISCARD
    ||| t == req_type::WRITE_ZEROES
}

/// The sectors that a buffer of `data_len` bytes is counted as: its whole sectors, and at least
/// one.
pub open spec fn sectors_of(data_len: u64) -> u64 {
    if data_len < 512 {
        1
    } else {
        data_len / 512
    }
}

/// What the validation of a request gives: the byte offset of its first sector, or why it is
/// refused. GET_ID and FLUSH have no offset and are not held to the device's size.
pub open spec fn validated(header: BlkReqHeader, data_len: u64, sectors: u64) -> Result<
    u64,
    BlkParseError,
> {
    if !known_req_type(header.req_type) {
        Err(BlkParseError::UnknownReqType(header.req_type))
    } else if header.req_type == req_type::GET_ID || header.req_type == req_type::FLUSH {
        Ok(0)
    } else if header.sector + sectors_of(data_len) > sectors {
        Err(BlkParseError::OutOfBounds { sector: header.sector, n: sectors_of(data_len), sectors })
    } else if header.sector * 512 > u64::MAX {
        Err(BlkParseError::Overflow)
    } else {
        Ok((header.sector * 512) as u64)
    }
}

/// Validate a parsed request against the device's `sectors` count and the data-buffer length,
/// returning the byte offset to read/write or an error.
pub fn validate_req(header: &BlkReqHeader, data_len: u64, sectors: u64) -> (r: Result<
    u64,
    BlkParseError,
>)
    ensures
        r == validated(*header, data_len, sectors),
{
    let t: u32 = header.req_type;
    if t != req_type::IN && t != req_type::OUT && t != req_type::FLUSH && t != req_type::GET_ID && t
        != req_type::DISCARD && t != req_type::WRITE_ZEROES {
        return Err(BlkParseError::UnknownReqType(t));
    }
    if t == req_type::GET_ID || t == req_type::FLUSH {
        return Ok(0);
    }
    let whole: u64 = data_len / 512;
    let n_sectors: u64 = if whole < 1 {
        1
    } else {
        whole
    };
    assert(n_sectors == sectors_of(data_len));
    let fits = match header.sector.checked_add(n_sectors) {
        Some(end) => end <= sectors,
        None => false,
    };
    if !fits {
        return Err(BlkParseError::OutOfBounds { sector: header.sector, n: n_sectors, sectors });
    }
    match header.sector.checked_mul(512) {
        Some(offset) => Ok(offset),
        None => Err(BlkParseError::Overflow),
    }
}

/// What a [`VirtioBlk`] saves.
#[derive(Debug, Clone, PartialEq, Eq)]
pub struct BlkState {
    pub backing_path: String,
    pub read_only: bool,
    pub sectors: u64,
}

/// The description of a volume: its backing path, and its size in sectors.
pub struct VirtioBlk {
    pub backing: String,
    pub read_only: bool,
    pub sectors: u64,
}

impl VirtioBlk {
    pub fn new(backing: String, read_only: bool, sectors: u64) -> (b: Self)
        ensures
            b == (VirtioBlk { backing, read_only, sectors }),
    {
        VirtioBlk { backing, read_only, sectors }
    }
}

impl Persist for VirtioBlk {
    type State = BlkState;

    fn save(&self) -> (s: BlkState)
        ensures
            s.backing_path@ == self.backing@,
            s.read_only == self.read_only,
            s.sectors == self.sectors,
    {
        BlkState {
            backing_path: self.backing.clone(),
            read_only: self.read_only,
            sectors: self.sectors,
        }
    }

    fn restore(&mut self, state: BlkState)
        ensures
            *final(self) == (VirtioBlk {
                backing: state.backing_path,
                read_only: state.read_only,
                sectors: state.sectors,
            }),
    {
        self.backing = state.backing_path;
        self.read_only = state.read_only;
        self.sectors = state.sectors;
    }
}

/// The header of a request is its first 16 bytes: the type in four, four that are reserved, and the
/// sector in eight, each with the least significant byte first. Fewer bytes hold none.
pub proof fn law_header_stands_in_front(b: &[u8], r: Option<BlkReqHeader>)
    requires
        call_ensures(BlkReqHeader::from_bytes, (b,), r),
    ensures
        r is Some <==> b@.len() >= 16,
        r matches Some(h) ==> {
            &&& h.req_type == b@[0] + 0x100 * b@[1] + 0x1_0000 * b@[2] + 0x100_0000 * b@[3]
            &&& h.reserved == b@[4] + 0x100 * b@[5] + 0x1_0000 * b@[6] + 0x100_0000 * b@[7]
            &&& h.sector == b@[8] + 0x100 * b@[9] + 0x1_0000 * b@[10] + 0x100_0000 * b@[11]
                + 0x1_0000_0000 * (b@[12] + 0x100 * b@[13] + 0x1_0000 * b@[14] + 0x100_0000
                * b@[15])
        },
{
    if b@.len() >= 16 {
        bytes::lemma_le32_stands(b@, 0);
        bytes::lemma_le32_stands(b@, 4);
        bytes::lemma_le64_stands(b@, 8);
    }
}

/// A request passes exactly where its type is known and, unless it is a flush or asks for the
/// identity, its sectors are among those of the device. It is then placed at the first byte of its
/// sector, which has 512 bytes. A buffer counts as its whole sectors, and as one where it has none.
/// What is refused is refused for what is wrong with it.
pub proof fn law_request_is_held_to_the_device(
    header: &BlkReqHeader,
    data_len: u64,
    sectors: u64,
    r: Result<u64, BlkParseError>,
)
    requires
        call_ensures(validate_req, (header, data_len, sectors), r),
    ensures
        ({
            let t = header.req_type;
            let known = t == 0 || t == 1 || t == 4 || t == 8 || t == 11 || t == 13;
            let placed = t != 4 && t != 8;
            let n = if data_len >= 512 {
                data_len as int / 512
            } else {
                1
            };
            let fits = header.sector + n <= sectors;
            &&& !known ==> r == Err::<u64, BlkParseError>(BlkParseError::UnknownReqType(t))
            &&& known && !placed ==> r == Ok::<u64, BlkParseError>(0)
            &&& known && placed && !fits ==> r == Err::<u64, BlkParseError>(
                BlkParseError::OutOfBounds { sector: header.sector, n: n as u64, sectors },
            )
            &&& known && placed && fits ==> if header.sector * 512 <= u64::MAX {
                r matches Ok(at) && at == header.sector * 512
            } else {
                r == Err::<u64, BlkParseError>(BlkParseError::Overflow)
            }
        }),
{
}

/// Requests of type 0 read; those of type 1 and 13 write.
pub proof fn law_direction_of_a_request(h: &BlkReqHeader, reads: bool, writes: bool)
    requires
        call_ensures(BlkReqHeader::is_read, (h,), reads),
        call_ensures(BlkReqHeader::is_write, (h,), writes),
    ensures
        reads <==> h.req_type == 0,
        writes <==> h.req_type == 1 || h.req_type == 13,
{
}

} // verus!
