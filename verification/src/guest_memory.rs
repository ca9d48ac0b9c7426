//! Guest physical memory.
//!
//! The guest's memory is a `vm_memory::GuestMemoryMmap`. Contracts speak of it through
//! [`guest_bytes`], the map from mapped guest-physical addresses to the bytes they hold.
use vm_memory::{Bytes, GuestAddress, GuestMemoryBackend, GuestMemoryMmap};
use vstd::prelude::*;

verus! {

/// `vm_memory::GuestRegionCollection`, the collection of regions that a
/// `GuestMemoryMmap` is.
#[verifier::external_type_specification]
#[verifier::external_body]
#[verifier::reject_recursive_types(R)]
pub struct ExGuestRegionCollection<R>(vm_memory::GuestRegionCollection<R>);

/// `vm_memory::GuestRegionMmap`, one mapped region of a `GuestMemoryMmap`.
#[verifier::external_type_specification]
#[verifier::external_body]
#[verifier::reject_recursive_types(B)]
pub struct ExGuestRegionMmap<B>(vm_memory::GuestRegionMmap<B>);

/// The bytes of guest memory: its domain holds the guest-physical addresses that lie in one
/// of the mapped regions.
///
/// The name stands for what the calling thread finds there while a call runs and nothing else
/// writes the same pages. What a running vCPU, or a second handle on the same mapping, stores
/// between two calls is not part of it.
pub uninterp spec fn guest_bytes(mem: GuestMemoryMmap) -> Map<int, u8>;

/// All of `[addr, addr + len)` is mapped and lies below 2^64.
pub open spec fn is_mapped(ram: Map<int, u8>, addr: int, len: int) -> bool {
    &&& addr + len <= 0x1_0000_0000_0000_0000
    &&& forall|a: int| addr <= a < addr + len ==> #[trigger] ram.dom().contains(a)
}

/// The `len` bytes at `addr`.
pub open spec fn ram_bytes(ram: Map<int, u8>, addr: int, len: int) -> Seq<u8> {
    Seq::new(len as nat, |i: int| ram[addr + i])
}

/// Memory after `bytes` were stored at `addr`.
pub open spec fn ram_write(ram: Map<int, u8>, addr: int, bytes: Seq<u8>) -> Map<int, u8> {
    Map::new(
        |a: int| ram.dom().contains(a),
        |a: int|
            if addr <= a < addr + bytes.len() {
                bytes[a - addr]
            } else {
                ram[a]
            },
    )
}

/// A store keeps the set of mapped addresses.
pub proof fn lemma_ram_write_dom(ram: Map<int, u8>, addr: int, bytes: Seq<u8>)
    ensures
        ram_write(ram, addr, bytes).dom() == ram.dom(),
{
    assert(ram_write(ram, addr, bytes).dom() =~= ram.dom());
}

/// `GuestMemoryBackend::check_range`: whether every byte of `[addr, addr + len)` lies in a
/// mapped region. The empty range always passes.
#[verifier::external_body]
pub(crate) fn check_range(mem: &GuestMemoryMmap, addr: u64, len: usize) -> (ok: bool)
    ensures
        ok == (len == 0 || is_mapped(guest_bytes(*mem), addr as int, len as int)),
{
    GuestMemoryBackend::check_range(mem, GuestAddress(addr), len)
}

/// `Bytes::read_slice`: the `len` bytes at `addr`, or nothing when one of them is unmapped. A
/// 32-bit length is one that a buffer can always have, as `vm_memory` is for 64-bit hosts only.
#[verifier::external_body]
pub(crate) fn read_bytes(mem: &GuestMemoryMmap, addr: u64, len: u32) -> (r: Option<Vec<u8>>)
    ensures
        r is Some == (len == 0 || is_mapped(guest_bytes(*mem), addr as int, len as int)),
        r matches Some(v) ==> v@ == ram_bytes(guest_bytes(*mem), addr as int, len as int),
{
    let mut buf = vec![0u8; len as usize];
    match mem.read_slice(&mut buf, GuestAddress(addr)) {
        Ok(()) => Some(buf),
        Err(_) => None,
    }
}

/// `Bytes::write_slice`: stores `data` at `addr` when all of the range is mapped. Otherwise it
/// fails, and only bytes of the range may have changed: it stores what stands before the first
/// hole.
#[verifier::external_body]
pub(crate) fn write_bytes(mem: &mut GuestMemoryMmap, addr: u64, data: &[u8]) -> (ok: bool)
    ensures
        ok == (data@.len() == 0 || is_mapped(
            guest_bytes(*old(mem)),
            addr as int,
            data@.len() as int,
        )),
        ok ==> guest_bytes(*final(mem)) == ram_write(guest_bytes(*old(mem)), addr as int, data@),
        guest_bytes(*final(mem)).dom() == guest_bytes(*old(mem)).dom(),
        forall|a: int|
            !(addr <= a < addr + data@.len()) ==> #[trigger] guest_bytes(*final(mem))[a]
                == guest_bytes(*old(mem))[a],
{
    mem.write_slice(data, GuestAddress(addr)).is_ok()
}

} // verus!
