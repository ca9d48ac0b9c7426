//! Scatter/gather access to the buffers of a descriptor chain.
use crate::bytes::push_all;
use crate::dirty::SoftwareDirtyBitmap;
use crate::guest_memory::{self, read_bytes, write_bytes};
use vm_memory::GuestMemoryMmap;
use vstd::prelude::*;
use vstd::slice::slice_subrange;

pub mod laws;

verus! {

/// Guest memory together with the record of what the host wrote to it.
#[verifier::ext_equal]
pub struct MemState {
    pub ram: Map<int, u8>,
    pub marks: Seq<(u64, u64)>,
}

/// The state of a memory and of the tracker of its dirty pages.
pub open spec fn mem_state(mem: GuestMemoryMmap, dirty: SoftwareDirtyBitmap) -> MemState {
    MemState { ram: guest_memory::guest_bytes(mem), marks: dirty@ }
}

impl MemState {
    /// The state after a store of `bytes` at `addr`, which is recorded as dirty.
    pub open spec fn store(self, addr: int, bytes: Seq<u8>) -> MemState {
        MemState {
            ram: guest_memory::ram_write(self.ram, addr, bytes),
            marks: self.marks.push((addr as u64, bytes.len() as u64)),
        }
    }
}

/// Every buffer of the list is mapped, or empty.
pub open spec fn all_mapped(ram: Map<int, u8>, bufs: Seq<(u64, u32)>) -> bool {
    forall|i: int|
        0 <= i < bufs.len() ==> (#[trigger] bufs[i]).1 == 0 || guest_memory::is_mapped(
            ram,
            bufs[i].0 as int,
            bufs[i].1 as int,
        )
}

/// The bytes of all buffers, in the order of the list.
pub open spec fn gather(ram: Map<int, u8>, bufs: Seq<(u64, u32)>) -> Seq<u8>
    decreases bufs.len(),
{
    if bufs.len() == 0 {
        Seq::empty()
    } else {
        gather(ram, bufs.drop_last()) + guest_memory::ram_bytes(
            ram,
            bufs.last().0 as int,
            bufs.last().1 as int,
        )
    }
}

/// The number of bytes of all buffers.
pub open spec fn total_len(bufs: Seq<(u64, u32)>) -> nat
    decreases bufs.len(),
{
    if bufs.len() == 0 {
        0
    } else {
        total_len(bufs.drop_last()) + bufs.last().1 as nat
    }
}

/// The state after `data` was laid over the buffers, each filled before the next.
pub open spec fn scatter(s: MemState, bufs: Seq<(u64, u32)>, data: Seq<u8>) -> MemState
    decreases bufs.len(),
{
    if bufs.len() == 0 || data.len() == 0 {
        s
    } else {
        let n = if bufs[0].1 < data.len() {
            bufs[0].1 as int
        } else {
            data.len() as int
        };
        scatter(
            if n > 0 {
                s.store(bufs[0].0 as int, data.take(n))
            } else {
                s
            },
            bufs.skip(1),
            data.skip(n),
        )
    }
}

/// Whether buffers are mapped depends on the mapped addresses alone.
pub proof fn lemma_all_mapped_dom(a: Map<int, u8>, b: Map<int, u8>, bufs: Seq<(u64, u32)>)
    requires
        a.dom() == b.dom(),
        all_mapped(a, bufs),
    ensures
        all_mapped(b, bufs),
{
}

/// The first buffers of a mapped list are mapped.
pub proof fn lemma_all_mapped_take(ram: Map<int, u8>, bufs: Seq<(u64, u32)>, k: int)
    requires
        0 <= k <= bufs.len(),
        all_mapped(ram, bufs),
    ensures
        all_mapped(ram, bufs.take(k)),
{
    assert forall|i: int| 0 <= i < k implies (#[trigger] bufs.take(k)[i]).1 == 0
        || guest_memory::is_mapped(ram, bufs.take(k)[i].0 as int, bufs.take(k)[i].1 as int) by {
        assert(bufs.take(k)[i] == bufs[i]);
    }
}

/// Laying data over buffers keeps the set of mapped addresses.
pub proof fn lemma_scatter_dom(s: MemState, bufs: Seq<(u64, u32)>, data: Seq<u8>)
    ensures
        scatter(s, bufs, data).ram.dom() == s.ram.dom(),
    decreases bufs.len(),
{
    if bufs.len() > 0 && data.len() > 0 {
        let n = if bufs[0].1 < data.len() {
            bufs[0].1 as int
        } else {
            data.len() as int
        };
        let t = s.store(bufs[0].0 as int, data.take(n));
        guest_memory::lemma_ram_write_dom(s.ram, bufs[0].0 as int, data.take(n));
        lemma_scatter_dom(
            if n > 0 {
                t
            } else {
                s
            },
            bufs.skip(1),
            data.skip(n),
        );
    }
}

/// What is gathered has the length of the buffers together.
pub proof fn lemma_gather_len(ram: Map<int, u8>, bufs: Seq<(u64, u32)>)
    ensures
        gather(ram, bufs).len() == total_len(bufs),
    decreases bufs.len(),
{
    if bufs.len() > 0 {
        lemma_gather_len(ram, bufs.drop_last());
    }
}

/// A list is at least as long in bytes as any of its prefixes.
pub proof fn lemma_total_len_take(bufs: Seq<(u64, u32)>, k: int)
    requires
        0 <= k <= bufs.len(),
    ensures
        total_len(bufs.take(k)) <= total_len(bufs),
    decreases bufs.len(),
{
    if k < bufs.len() {
        assert(bufs.drop_last().take(k) =~= bufs.take(k));
        lemma_total_len_take(bufs.drop_last(), k);
    } else {
        assert(bufs.take(k) =~= bufs);
    }
}

/// The number of bytes of the first `count` buffers.
pub fn descs_len(descs: &[(u64, u32)], count: usize) -> (n: usize)
    requires
        count <= descs@.len(),
        total_len(descs@) <= usize::MAX,
    ensures
        n == total_len(descs@.take(count as int)),
{
    let mut total: usize = 0;
    let mut i: usize = 0;
    while i < count
        invariant
            i <= count <= descs@.len(),
            total_len(descs@) <= usize::MAX,
            total == total_len(descs@.take(i as int)),
        decreases count - i,
    {
        proof {
            assert(descs@.take(i + 1).drop_last() =~= descs@.take(i as int));
            assert(descs@.take(i + 1).last() == descs@[i as int]);
            lemma_total_len_take(descs@, i + 1);
        }
        total = total + descs[i].1 as usize;
        i += 1;
    }
    total
}

/// Stores `data` at `addr` and records the store, if the range is mapped.
pub fn write_slice_mem(
    mem: &mut GuestMemoryMmap,
    dirty: &mut SoftwareDirtyBitmap,
    data: &[u8],
    addr: u64,
) -> (ok: bool)
    ensures
        ok == (data@.len() == 0 || guest_memory::is_mapped(
            guest_memory::guest_bytes(*old(mem)),
            addr as int,
            data@.len() as int,
        )),
        ok ==> mem_state(*final(mem), *final(dirty)) == mem_state(*old(mem), *old(dirty)).store(
            addr as int,
            data@,
        ),
        !ok ==> final(dirty)@ == old(dirty)@,
        !ok && data@.len() == 1 ==> mem_state(*final(mem), *final(dirty)) == mem_state(
            *old(mem),
            *old(dirty),
        ),
        guest_memory::guest_bytes(*final(mem)).dom()
            == guest_memory::guest_bytes(*old(mem)).dom(),
{
    if write_bytes(mem, addr, data) {
        dirty.mark_range(addr, data.len() as u64);
        true
    } else {
        proof {
            if data@.len() == 1 {
                assert(guest_memory::guest_bytes(*mem)
                    =~= guest_memory::guest_bytes(*old(mem)));
            }
        }
        false
    }
}

/// The bytes of the first `count` buffers one after the other, or nothing when one of them is
/// unmapped.
pub fn read_descs(mem: &GuestMemoryMmap, descs: &[(u64, u32)], count: usize) -> (r: Option<
    Vec<u8>,
>)
    requires
        count <= descs@.len(),
    ensures
        r is Some == all_mapped(guest_memory::guest_bytes(*mem), descs@.take(count as int)),
        r matches Some(v) ==> v@ == gather(
            guest_memory::guest_bytes(*mem),
            descs@.take(count as int),
        ),
{
    let ghost ram = guest_memory::guest_bytes(*mem);
    let ghost bufs = descs@.take(count as int);
    let mut data: Vec<u8> = Vec::new();
    let mut i: usize = 0;
    while i < count
        invariant
            i <= count <= descs@.len(),
            bufs == descs@.take(count as int),
            ram == guest_memory::guest_bytes(*mem),
            data@ == gather(ram, bufs.take(i as int)),
            all_mapped(ram, bufs.take(i as int)),
        decreases count - i,
    {
        let (addr, len) = descs[i];
        assert(bufs[i as int] == (addr, len));
        assert(bufs.take(i + 1).drop_last() =~= bufs.take(i as int));
        assert(bufs.take(i + 1).last() == bufs[i as int]);
        match read_bytes(mem, addr, len) {
            None => {
                return None;
            },
            Some(buf) => {
                push_all(&mut data, buf.as_slice());
            },
        }
        i += 1;
        assert forall|j: int| 0 <= j < i implies (#[trigger] bufs.take(i as int)[j]).1 == 0
            || guest_memory::is_mapped(
            ram,
            bufs.take(i as int)[j].0 as int,
            bufs.take(i as int)[j].1 as int,
        ) by {
            if j < i - 1 {
                assert(bufs.take(i - 1)[j] == bufs.take(i as int)[j]);
            }
        }
    }
    assert(bufs.take(i as int) =~= bufs);
    Some(data)
}

/// Lays `data` over the first `count` buffers, each filled before the next.
pub fn write_descs(
    mem: &mut GuestMemoryMmap,
    dirty: &mut SoftwareDirtyBitmap,
    descs: &[(u64, u32)],
    count: usize,
    data: &[u8],
) -> (written: usize)
    requires
        count <= descs@.len(),
        all_mapped(guest_memory::guest_bytes(*old(mem)), descs@),
    ensures
        mem_state(*final(mem), *final(dirty)) == scatter(
            mem_state(*old(mem), *old(dirty)),
            descs@.take(count as int),
            data@,
        ),
        written == (if total_len(descs@.take(count as int)) < data@.len() {
            total_len(descs@.take(count as int))
        } else {
            data@.len()
        }),
{
    let ghost s0 = mem_state(*old(mem), *old(dirty));
    let ghost bufs = descs@.take(count as int);
    let mut cursor: usize = 0;
    let mut i: usize = 0;
    assert(bufs.skip(0) =~= bufs);
    assert(data@.skip(0) =~= data@);
    assert(bufs.take(0) =~= Seq::<(u64, u32)>::empty());
    while i < count
        invariant
            i <= count <= descs@.len(),
            cursor <= data@.len(),
            bufs == descs@.take(count as int),
            all_mapped(guest_memory::guest_bytes(*mem), descs@),
            scatter(s0, bufs, data@) == scatter(
                mem_state(*mem, *dirty),
                bufs.skip(i as int),
                data@.skip(cursor as int),
            ),
            cursor == (if total_len(bufs.take(i as int)) < data@.len() {
                total_len(bufs.take(i as int))
            } else {
                data@.len()
            }),
        decreases count - i,
    {
        let (addr, len) = descs[i];
        let rest: usize = data.len() - cursor;
        let take: usize = if (len as usize) < rest {
            len as usize
        } else {
            rest
        };
        let ghost ram0 = guest_memory::guest_bytes(*mem);
        proof {
            assert(bufs.skip(i as int)[0] == (addr, len));
            assert(bufs.skip(i as int).skip(1) =~= bufs.skip(i + 1));
            assert(data@.skip(cursor as int).skip(take as int) =~= data@.skip(cursor + take));
            assert(bufs.take(i + 1).drop_last() =~= bufs.take(i as int));
            assert(bufs.take(i + 1).last() == (addr, len));
            assert(descs@[i as int] == (addr, len));
        }
        if take > 0 {
            let part = slice_subrange(data, cursor, cursor + take);
            assert(part@ =~= data@.skip(cursor as int).take(take as int));
            let ok = write_slice_mem(mem, dirty, part, addr);
            assert(ok);
            proof {
                lemma_all_mapped_dom(
                    ram0,
                    guest_memory::guest_bytes(*mem),
                    descs@,
                );
            }
        }
        cursor = cursor + take;
        i += 1;
    }
    assert(bufs.take(count as int) =~= bufs);
    cursor
}

} // verus!
