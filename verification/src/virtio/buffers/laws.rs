//! Which byte of a list of buffers stands where, and what is recorded of a store.
use crate::guest_memory;
use crate::virtio::buffers::{self, MemState};
use vstd::prelude::*;

verus! {

/// How many bytes the buffers in front of number `k` have.
pub open spec fn start_of(bufs: Seq<(u64, u32)>, k: int) -> int
    decreases k,
{
    if k <= 0 {
        0
    } else {
        start_of(bufs, k - 1) + bufs[k - 1].1
    }
}

/// Address `a` lies in buffer `b`.
pub open spec fn within(b: (u64, u32), a: int) -> bool {
    b.0 <= a < b.0 + b.1
}

/// No two of the buffers have an address in common.
pub open spec fn apart(bufs: Seq<(u64, u32)>) -> bool {
    forall|i: int, j: int, a: int|
        0 <= i < j < bufs.len() && #[trigger] within(bufs[i], a) ==> !#[trigger] within(bufs[j], a)
}

/// Byte `j` of buffer `k` is one of the bytes of the buffers together.
pub open spec fn is_place(bufs: Seq<(u64, u32)>, k: int, j: int) -> bool {
    0 <= k < bufs.len() && 0 <= j < bufs[k].1
}

proof fn lemma_start_drop(bufs: Seq<(u64, u32)>, k: int)
    requires
        bufs.len() > 0,
        k <= bufs.len() - 1,
    ensures
        start_of(bufs.drop_last(), k) == start_of(bufs, k),
    decreases k,
{
    if k > 0 {
        lemma_start_drop(bufs, k - 1);
        assert(bufs.drop_last()[k - 1] == bufs[k - 1]);
    }
}

proof fn lemma_start_skip(bufs: Seq<(u64, u32)>, k: int)
    requires
        bufs.len() > 0,
        0 <= k <= bufs.len() - 1,
    ensures
        start_of(bufs, k + 1) == bufs[0].1 + start_of(bufs.skip(1), k),
    decreases k,
{
    if k > 0 {
        lemma_start_skip(bufs, k - 1);
        assert(bufs.skip(1)[k - 1] == bufs[k]);
    } else {
        assert(start_of(bufs, 0) == 0);
        assert(start_of(bufs, 1) == start_of(bufs, 0) + bufs[0].1);
    }
}

/// The starts of buffers do not go back.
pub proof fn lemma_start_grows(bufs: Seq<(u64, u32)>, k: int, n: int)
    requires
        0 <= k <= n,
    ensures
        0 <= start_of(bufs, k) <= start_of(bufs, n),
    decreases n,
{
    if n > k {
        lemma_start_grows(bufs, k, n - 1);
    } else if k > 0 {
        lemma_start_grows(bufs, k - 1, k - 1);
    }
}

/// Reading a list of buffers gives every byte of every buffer, in the order of the list: byte `j`
/// of buffer `k` stands behind all bytes of the buffers in front of it. Nothing else is read.
pub proof fn law_gather_reads_every_byte(ram: Map<int, u8>, bufs: Seq<(u64, u32)>)
    ensures
        buffers::gather(ram, bufs).len() == start_of(bufs, bufs.len() as int),
        buffers::total_len(bufs) == start_of(bufs, bufs.len() as int),
        forall|k: int, j: int| #[trigger]
            is_place(bufs, k, j) ==> {
                &&& 0 <= start_of(bufs, k) + j < buffers::gather(ram, bufs).len()
                &&& buffers::gather(ram, bufs)[start_of(bufs, k) + j] == ram[bufs[k].0 + j]
            },
    decreases bufs.len(),
{
    if bufs.len() > 0 {
        let front = bufs.drop_last();
        let n = bufs.len() - 1;
        law_gather_reads_every_byte(ram, front);
        lemma_start_drop(bufs, n);
        assert forall|k: int, j: int| #[trigger] is_place(bufs, k, j) implies {
            &&& 0 <= start_of(bufs, k) + j < buffers::gather(ram, bufs).len()
            &&& buffers::gather(ram, bufs)[start_of(bufs, k) + j] == ram[bufs[k].0 + j]
        } by {
            lemma_start_drop(bufs, k);
            lemma_start_grows(bufs, k, k);
            if k < n {
                assert(front[k] == bufs[k]);
                assert(is_place(front, k, j));
            }
        }
    }
}

/// Address `a` lies in one of the buffers.
pub open spec fn in_any(bufs: Seq<(u64, u32)>, a: int) -> bool {
    exists|k: int| 0 <= k < bufs.len() && #[trigger] within(bufs[k], a)
}

/// Laying data over a list of buffers that do not overlap fills every byte of every buffer that the
/// data reaches, in the order of the list: the byte behind the first `n` goes to byte `n` of the
/// buffers put together. What the data does not reach, and all other memory, stays.
pub proof fn law_scatter_fills_every_buffer(m: MemState, bufs: Seq<(u64, u32)>, data: Seq<u8>)
    requires
        buffers::all_mapped(m.ram, bufs),
        apart(bufs),
    ensures
        buffers::scatter(m, bufs, data).ram.dom() == m.ram.dom(),
        forall|k: int, j: int| #[trigger]
            is_place(bufs, k, j) ==> buffers::scatter(m, bufs, data).ram[bufs[k].0 + j] == (if start_of(
                bufs,
                k,
            ) + j < data.len() {
                data[start_of(bufs, k) + j]
            } else {
                m.ram[bufs[k].0 + j]
            }),
        forall|a: int|
            m.ram.dom().contains(a) && !in_any(bufs, a) ==> #[trigger] buffers::scatter(
                m,
                bufs,
                data,
            ).ram[a] == m.ram[a],
    decreases bufs.len(),
{
    buffers::lemma_scatter_dom(m, bufs, data);
    let done = buffers::scatter(m, bufs, data);
    if bufs.len() > 0 && data.len() > 0 {
        let n = if bufs[0].1 < data.len() {
            bufs[0].1 as int
        } else {
            data.len() as int
        };
        let rest = bufs.skip(1);
        let first = if n > 0 {
            m.store(bufs[0].0 as int, data.take(n))
        } else {
            m
        };
        guest_memory::lemma_ram_write_dom(m.ram, bufs[0].0 as int, data.take(n));
        assert(apart(rest)) by {
            assert forall|i: int, j: int, a: int|
                0 <= i < j < rest.len() && #[trigger] within(rest[i], a) implies !#[trigger] within(
                rest[j],
                a,
            ) by {
                assert(rest[i] == bufs[i + 1]);
                assert(rest[j] == bufs[j + 1]);
                assert(within(bufs[i + 1], a));
            }
        }
        assert(buffers::all_mapped(first.ram, rest)) by {
            assert forall|i: int| 0 <= i < rest.len() implies (#[trigger] rest[i]).1 == 0
                || guest_memory::is_mapped(first.ram, rest[i].0 as int, rest[i].1 as int) by {
                assert(rest[i] == bufs[i + 1]);
            }
        }
        law_scatter_fills_every_buffer(first, rest, data.skip(n));
        assert forall|k: int, j: int| #[trigger] is_place(bufs, k, j) implies done.ram[bufs[k].0
            + j] == (if start_of(bufs, k) + j < data.len() {
            data[start_of(bufs, k) + j]
        } else {
            m.ram[bufs[k].0 + j]
        }) by {
            let a = bufs[k].0 + j;
            assert(within(bufs[k], a));
            assert(guest_memory::is_mapped(m.ram, bufs[k].0 as int, bufs[k].1 as int));
            assert(m.ram.dom().contains(a));
            if k == 0 {
                if in_any(rest, a) {
                    let i = choose|i: int| 0 <= i < rest.len() && #[trigger] within(rest[i], a);
                    assert(rest[i] == bufs[i + 1]);
                    assert(within(bufs[0], a) && within(bufs[i + 1], a));
                }
                assert(done.ram[a] == first.ram[a]);
            } else {
                assert(rest[k - 1] == bufs[k]);
                assert(is_place(rest, k - 1, j));
                lemma_start_skip(bufs, k - 1);
                lemma_start_grows(rest, k - 1, k - 1);
                assert(!within(bufs[0], a));
                assert(first.ram[a] == m.ram[a]);
            }
        }
        assert forall|a: int|
            m.ram.dom().contains(a) && !in_any(bufs, a) implies #[trigger] done.ram[a]
            == m.ram[a] by {
            if in_any(rest, a) {
                let i = choose|i: int| 0 <= i < rest.len() && #[trigger] within(rest[i], a);
                assert(rest[i] == bufs[i + 1]);
                assert(within(bufs[i + 1], a));
            }
            assert(!within(bufs[0], a));
            assert(done.ram[a] == first.ram[a]);
        }
    } else if data.len() == 0 {
        assert forall|k: int, j: int| #[trigger] is_place(bufs, k, j) implies done.ram[bufs[k].0
            + j] == (if start_of(bufs, k) + j < data.len() {
            data[start_of(bufs, k) + j]
        } else {
            m.ram[bufs[k].0 + j]
        }) by {
            lemma_start_grows(bufs, k, k);
        }
    }
}

/// What was laid over buffers that do not overlap is what reading them gives back.
pub proof fn law_gather_after_scatter(m: MemState, bufs: Seq<(u64, u32)>, data: Seq<u8>)
    requires
        buffers::all_mapped(m.ram, bufs),
        apart(bufs),
        data.len() == buffers::total_len(bufs),
    ensures
        buffers::gather(buffers::scatter(m, bufs, data).ram, bufs) == data,
{
    let got = buffers::gather(buffers::scatter(m, bufs, data).ram, bufs);
    law_scatter_fills_every_buffer(m, bufs, data);
    law_gather_reads_every_byte(buffers::scatter(m, bufs, data).ram, bufs);
    assert forall|i: int| 0 <= i < got.len() implies #[trigger] got[i] == data[i] by {
        let (k, j) = lemma_place_of(bufs, i);
        assert(is_place(bufs, k, j));
    }
    assert(got =~= data);
}

/// Every byte of the buffers put together is a byte of one of them.
pub proof fn lemma_place_of(bufs: Seq<(u64, u32)>, i: int) -> (r: (int, int))
    requires
        0 <= i < start_of(bufs, bufs.len() as int),
    ensures
        is_place(bufs, r.0, r.1),
        start_of(bufs, r.0) + r.1 == i,
    decreases bufs.len(),
{
    if bufs.len() == 0 {
        (0, 0)
    } else {
        let n = bufs.len() - 1;
        lemma_start_drop(bufs, n);
        if i >= start_of(bufs, n) {
            (n, i - start_of(bufs, n))
        } else {
            let r = lemma_place_of(bufs.drop_last(), i);
            lemma_start_drop(bufs, r.0);
            assert(bufs.drop_last()[r.0] == bufs[r.0]);
            r
        }
    }
}

/// Address `a` lies in one of the ranges.
pub open spec fn covered(marks: Seq<(u64, u64)>, a: int) -> bool {
    exists|i: int| 0 <= i < marks.len() && (#[trigger] marks[i]).0 <= a < marks[i].0 + marks[i].1
}

/// From `m` to `n` the record only grew, and whatever byte changed lies in a range that was added.
pub open spec fn recorded(m: MemState, n: MemState) -> bool {
    &&& n.ram.dom() == m.ram.dom()
    &&& m.marks.len() <= n.marks.len()
    &&& n.marks.take(m.marks.len() as int) == m.marks
    &&& forall|a: int|
        m.ram.dom().contains(a) && #[trigger] n.ram[a] != m.ram[a] ==> covered(
            n.marks.skip(m.marks.len() as int),
            a,
        )
}

/// Records add up.
pub proof fn lemma_recorded_on(a: MemState, b: MemState, c: MemState)
    requires
        recorded(a, b),
        recorded(b, c),
    ensures
        recorded(a, c),
{
    assert(c.marks.take(a.marks.len() as int) =~= a.marks) by {
        assert forall|i: int| 0 <= i < a.marks.len() implies c.marks[i] == a.marks[i] by {
            assert(c.marks.take(b.marks.len() as int)[i] == b.marks[i]);
            assert(b.marks.take(a.marks.len() as int)[i] == a.marks[i]);
        }
    }
    let added = c.marks.skip(a.marks.len() as int);
    assert forall|x: int|
        a.ram.dom().contains(x) && #[trigger] c.ram[x] != a.ram[x] implies covered(added, x) by {
        if b.ram[x] != a.ram[x] {
            let ab = b.marks.skip(a.marks.len() as int);
            let i = choose|i: int|
                0 <= i < ab.len() && (#[trigger] ab[i]).0 <= x < ab[i].0 + ab[i].1;
            assert(c.marks.take(b.marks.len() as int)[i + a.marks.len()] == b.marks[i
                + a.marks.len()]);
            assert(added[i] == ab[i]);
        } else {
            let bc = c.marks.skip(b.marks.len() as int);
            let i = choose|i: int|
                0 <= i < bc.len() && (#[trigger] bc[i]).0 <= x < bc[i].0 + bc[i].1;
            assert(added[i + b.marks.len() - a.marks.len()] == bc[i]);
        }
    }
}

/// A store is recorded where it was made.
pub proof fn lemma_store_recorded(m: MemState, at: int, data: Seq<u8>)
    requires
        0 <= at <= u64::MAX,
        data.len() <= u64::MAX,
        guest_memory::is_mapped(m.ram, at, data.len() as int),
    ensures
        recorded(m, m.store(at, data)),
{
    let n = m.store(at, data);
    guest_memory::lemma_ram_write_dom(m.ram, at, data);
    assert(n.marks.take(m.marks.len() as int) =~= m.marks);
    let added = n.marks.skip(m.marks.len() as int);
    assert forall|a: int|
        m.ram.dom().contains(a) && #[trigger] n.ram[a] != m.ram[a] implies covered(added, a) by {
        assert(at <= a < at + data.len());
        assert(added[0] == (at as u64, data.len() as u64));
    }
}

/// Nothing done is nothing to record.
pub proof fn lemma_nothing_recorded(m: MemState)
    ensures
        recorded(m, m),
{
    assert(m.marks.take(m.marks.len() as int) =~= m.marks);
}

/// Laying data over buffers is recorded, byte for byte, whether they overlap or not.
pub proof fn law_scatter_is_recorded(m: MemState, bufs: Seq<(u64, u32)>, data: Seq<u8>)
    requires
        buffers::all_mapped(m.ram, bufs),
    ensures
        recorded(m, buffers::scatter(m, bufs, data)),
    decreases bufs.len(),
{
    lemma_nothing_recorded(m);
    if bufs.len() > 0 && data.len() > 0 {
        let n = if bufs[0].1 < data.len() {
            bufs[0].1 as int
        } else {
            data.len() as int
        };
        let rest = bufs.skip(1);
        let first = if n > 0 {
            m.store(bufs[0].0 as int, data.take(n))
        } else {
            m
        };
        if n > 0 {
            assert(guest_memory::is_mapped(m.ram, bufs[0].0 as int, bufs[0].1 as int));
            lemma_store_recorded(m, bufs[0].0 as int, data.take(n));
        }
        guest_memory::lemma_ram_write_dom(m.ram, bufs[0].0 as int, data.take(n));
        assert(buffers::all_mapped(first.ram, rest)) by {
            assert forall|i: int| 0 <= i < rest.len() implies (#[trigger] rest[i]).1 == 0
                || guest_memory::is_mapped(first.ram, rest[i].0 as int, rest[i].1 as int) by {
                assert(rest[i] == bufs[i + 1]);
            }
        }
        law_scatter_is_recorded(first, rest, data.skip(n));
        lemma_recorded_on(m, first, buffers::scatter(m, bufs, data));
    }
}

} // verus!
