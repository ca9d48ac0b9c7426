//! The pages that a balloon request names, and giving them back to the host.
use crate::bytes::{self, read_le32};
use crate::guest_memory;
use crate::virtio::buffers::{self, read_descs};
use vm_memory::GuestMemoryMmap;
use vstd::prelude::*;

verus! {

pub const PAGE_SIZE: u64 = 4096;

/// Linux's virtio-balloon driver submits at most one page of 32-bit PFNs in a request. The
/// allocation and CPU cost of a request stays bounded even when a guest supplies a much larger
/// descriptor chain.
pub const MAX_PFNS_PER_REQUEST: usize = 256;

/// The 32-bit little-endian page frame numbers in `data`.
pub open spec fn pfns_in(data: Seq<u8>) -> Seq<u32> {
    Seq::new((data.len() / 4) as nat, |i: int| bytes::le32_at(data, 4 * i) as u32)
}

/// The page lies within `size_bytes` bytes of guest memory.
pub open spec fn page_fits(pfn: u32, size_bytes: u64) -> bool {
    (pfn + 1) * 4096 <= size_bytes
}

/// Every buffer holds a positive number of whole PFNs.
pub open spec fn whole_pfns(readable: Seq<(u64, u32)>) -> bool {
    forall|i: int|
        0 <= i < readable.len() ==> (#[trigger] readable[i]).1 > 0 && readable[i].1 % 4 == 0
}

/// The pages that a request names, or `None` where the request is malformed: it has writable
/// buffers, a buffer that holds no whole number of PFNs or is not in guest memory, no PFN or too
/// many of them, or a page that guest memory does not have.
pub open spec fn parsed_pfns(
    ram: Map<int, u8>,
    size_bytes: u64,
    readable: Seq<(u64, u32)>,
    writable: Seq<(u64, u32)>,
) -> Option<Seq<u32>> {
    let pfns = pfns_in(buffers::gather(ram, readable));
    if writable.len() == 0 && whole_pfns(readable) && 0 < buffers::total_len(readable) <= 4 * 256
        && buffers::all_mapped(ram, readable) && (forall|i: int|
        0 <= i < pfns.len() ==> page_fits(#[trigger] pfns[i], size_bytes)) {
        Some(pfns)
    } else {
        None
    }
}

/// A range of pages without a gap.
#[derive(Debug, Copy, Clone, PartialEq, Eq, Structural)]
pub struct PageRun {
    pub first: u32,
    pub last: u32,
}

impl PageRun {
    pub open spec fn has(self, pfn: u32) -> bool {
        self.first <= pfn <= self.last
    }

    /// Where the range starts in guest memory.
    pub open spec fn gpa(self) -> u64 {
        (self.first * 4096) as u64
    }

    /// How many bytes the range has.
    pub open spec fn bytes(self) -> u64 {
        ((self.last - self.first + 1) * 4096) as u64
    }
}

/// One of the runs has the page.
pub open spec fn in_runs(runs: Seq<PageRun>, pfn: u32) -> bool {
    exists|i: int| 0 <= i < runs.len() && (#[trigger] runs[i]).has(pfn)
}

/// The runs ascend, with a gap between each two of them.
pub open spec fn runs_apart(runs: Seq<PageRun>) -> bool {
    &&& forall|i: int| 0 <= i < runs.len() ==> (#[trigger] runs[i]).first <= runs[i].last
    &&& forall|i: int, j: int|
        0 <= i < j < runs.len() ==> (#[trigger] runs[i]).last + 1 < (#[trigger] runs[j]).first
}

/// The runs are the pages in as few ranges as can be.
pub open spec fn is_page_runs(pages: Seq<u32>, runs: Seq<PageRun>) -> bool {
    &&& runs_apart(runs)
    &&& forall|p: u32| #[trigger] pages.contains(p) <==> in_runs(runs, p)
}

/// A way to give a range of guest memory back to the host. It takes the memory, the guest
/// address and the length of the range, and hands the memory back with whether it succeeded.
pub open spec fn discard_answer<D: Fn(GuestMemoryMmap, u64, u64) -> (GuestMemoryMmap, bool)>(
    discard: D,
    ram: Map<int, u8>,
    gpa: u64,
    len: u64,
    ram2: Map<int, u8>,
    ok: bool,
) -> bool {
    exists|m: GuestMemoryMmap, m2: GuestMemoryMmap|
        guest_memory::guest_bytes(m) == ram && guest_memory::guest_bytes(m2) == ram2
            && #[trigger] call_ensures(discard, (m, gpa, len), (m2, ok))
}

/// A discard can be asked for any range, and leaves the same addresses mapped.
pub open spec fn discard_keeps_mapping<
    D: Fn(GuestMemoryMmap, u64, u64) -> (GuestMemoryMmap, bool),
>(discard: D) -> bool {
    &&& forall|m: GuestMemoryMmap, gpa: u64, len: u64| call_requires(discard, (m, gpa, len))
    &&& forall|m: GuestMemoryMmap, gpa: u64, len: u64, m2: GuestMemoryMmap, ok: bool|
        #[trigger] call_ensures(discard, (m, gpa, len), (m2, ok)) ==> guest_memory::guest_bytes(
            m2,
        ).dom() == guest_memory::guest_bytes(m).dom()
}

/// A range that was discarded reads as zero, and nothing else has changed.
pub open spec fn discard_zeroes<D: Fn(GuestMemoryMmap, u64, u64) -> (GuestMemoryMmap, bool)>(
    discard: D,
) -> bool {
    forall|ram: Map<int, u8>, gpa: u64, len: u64, ram2: Map<int, u8>|
        #[trigger] discard_answer(discard, ram, gpa, len, ram2, true) ==> ram2
            == guest_memory::ram_write(ram, gpa as int, Seq::new(len as nat, |i: int| 0u8))
}

/// How giving back the runs one by one may go: it ends at the first one that fails.
pub open spec fn discards<D: Fn(GuestMemoryMmap, u64, u64) -> (GuestMemoryMmap, bool)>(
    discard: D,
    ram: Map<int, u8>,
    runs: Seq<PageRun>,
    ram2: Map<int, u8>,
    ok: bool,
) -> bool
    decreases runs.len(),
{
    if runs.len() == 0 {
        ram2 == ram && ok
    } else {
        exists|r: Map<int, u8>, b: bool|
            #[trigger] discard_answer(discard, ram, runs[0].gpa(), runs[0].bytes(), r, b) && if b {
                discards(discard, r, runs.skip(1), ram2, ok)
            } else {
                ram2 == r && !ok
            }
    }
}

/// How inflating by these pages may go.
pub open spec fn inflates<D: Fn(GuestMemoryMmap, u64, u64) -> (GuestMemoryMmap, bool)>(
    discard: D,
    pfns: Seq<u32>,
    ram: Map<int, u8>,
    ram2: Map<int, u8>,
    ok: bool,
) -> bool {
    exists|runs: Seq<PageRun>|
        is_page_runs(pfns, runs) && #[trigger] discards(discard, ram, runs, ram2, ok)
}

/// The pages that a request names; see [`parsed_pfns`].
pub fn parse_pfns(
    mem: &GuestMemoryMmap,
    size_bytes: u64,
    readable: &[(u64, u32)],
    writable: &[(u64, u32)],
) -> (r: Option<Vec<u32>>)
    ensures
        match parsed_pfns(
            guest_memory::guest_bytes(*mem),
            size_bytes,
            readable@,
            writable@,
        ) {
            Some(pfns) => r matches Some(v) && v@ == pfns,
            None => r is None,
        },
{
    let ghost ram = guest_memory::guest_bytes(*mem);
    if writable.len() > 0 {
        return None;
    }
    let mut total: u64 = 0;
    let mut i: usize = 0;
    assert(readable@.take(0) =~= Seq::<(u64, u32)>::empty());
    while i < readable.len()
        invariant
            i <= readable@.len(),
            4 * total == buffers::total_len(readable@.take(i as int)),
            total <= 256,
            forall|j: int|
                0 <= j < i ==> (#[trigger] readable@[j]).1 > 0 && readable@[j].1 % 4 == 0,
        decreases readable@.len() - i,
    {
        let (_, len) = readable[i];
        assert(readable@[i as int].1 == len);
        if len == 0 || len % 4 != 0 {
            return None;
        }
        proof {
            assert(readable@.take(i + 1).drop_last() =~= readable@.take(i as int));
            buffers::lemma_total_len_take(readable@, i + 1);
        }
        total = total + (len / 4) as u64;
        if total > MAX_PFNS_PER_REQUEST as u64 {
            return None;
        }
        i += 1;
    }
    assert(readable@.take(i as int) =~= readable@);
    if total == 0 {
        return None;
    }
    let data: Vec<u8> = match read_descs(mem, readable, readable.len()) {
        Some(data) => data,
        None => {
            return None;
        },
    };
    proof {
        buffers::lemma_gather_len(ram, readable@);
    }
    let count: usize = data.len() / 4;
    let ghost all = pfns_in(data@);
    let mut pfns: Vec<u32> = Vec::with_capacity(count);
    let mut k: usize = 0;
    while k < count
        invariant
            k <= count,
            count == data@.len() / 4,
            data@.len() <= 1024,
            all == pfns_in(data@),
            pfns@ =~= all.take(k as int),
            forall|j: int| 0 <= j < k ==> page_fits(#[trigger] all[j], size_bytes),
            data@ == buffers::gather(ram, readable@),
            ram == guest_memory::guest_bytes(*mem),
        decreases count - k,
    {
        let pfn: u32 = read_le32(data.as_slice(), 4 * k);
        assert(all[k as int] == pfn);
        let end: u64 = pfn as u64 * PAGE_SIZE + PAGE_SIZE;
        if end > size_bytes {
            assert(!page_fits(all[k as int], size_bytes));
            return None;
        }
        pfns.push(pfn);
        k += 1;
    }
    assert(pfns@ =~= all);
    Some(pfns)
}

/// The pages in ascending order, each once.
fn sorted_pages(pfns: &Vec<u32>) -> (s: Vec<u32>)
    ensures
        forall|i: int, j: int| 0 <= i < j < s@.len() ==> s@[i] < s@[j],
        forall|p: u32| #[trigger] s@.contains(p) <==> pfns@.contains(p),
{
    let mut s: Vec<u32> = Vec::with_capacity(pfns.len());
    let mut k: usize = 0;
    while k < pfns.len()
        invariant
            k <= pfns@.len(),
            forall|i: int, j: int| 0 <= i < j < s@.len() ==> s@[i] < s@[j],
            forall|p: u32| #[trigger] s@.contains(p) <==> pfns@.take(k as int).contains(p),
        decreases pfns@.len() - k,
    {
        let pfn: u32 = pfns[k];
        let ghost s0 = s@;
        let mut at: usize = 0;
        while at < s.len() && s[at] < pfn
            invariant
                at <= s@.len(),
                forall|i: int| 0 <= i < at ==> s@[i] < pfn,
            decreases s@.len() - at,
        {
            at += 1;
        }
        if at == s.len() || s[at] != pfn {
            s.insert(at, pfn);
            proof {
                assert forall|p: u32| #[trigger] s@.contains(p) <==> s0.contains(p) || p == pfn by {
                    assert(s@[at as int] == pfn);
                    if s0.contains(p) {
                        let i = choose|i: int| 0 <= i < s0.len() && s0[i] == p;
                        if i < at {
                            assert(s@[i] == p);
                        } else {
                            assert(s@[i + 1] == p);
                        }
                    }
                    if s@.contains(p) && p != pfn {
                        let i = choose|i: int| 0 <= i < s@.len() && s@[i] == p;
                        if i < at {
                            assert(s0[i] == p);
                        } else {
                            assert(s0[i - 1] == p);
                        }
                    }
                }
            }
        } else {
            assert(s0[at as int] == pfn);
            assert(s0.contains(pfn));
        }
        proof {
            let before = pfns@.take(k as int);
            let after = pfns@.take(k + 1);
            assert(after =~= before.push(pfn));
            assert forall|p: u32| #[trigger] after.contains(p) <==> before.contains(p) || p == pfn by {
                assert(after[k as int] == pfn);
                if before.contains(p) {
                    let i = choose|i: int| 0 <= i < before.len() && before[i] == p;
                    assert(after[i] == p);
                }
                if after.contains(p) && p != pfn {
                    let i = choose|i: int| 0 <= i < after.len() && after[i] == p;
                    assert(before[i] == p);
                }
            }
        }
        k += 1;
    }
    assert(pfns@.take(k as int) =~= pfns@);
    s
}

/// The runs of ascending pages.
fn runs_of_sorted(s: &Vec<u32>) -> (runs: Vec<PageRun>)
    requires
        forall|i: int, j: int| 0 <= i < j < s@.len() ==> s@[i] < s@[j],
    ensures
        is_page_runs(s@, runs@),
{
    let mut runs: Vec<PageRun> = Vec::new();
    let mut cursor: usize = 0;
    while cursor < s.len()
        invariant
            cursor <= s@.len(),
            forall|i: int, j: int| 0 <= i < j < s@.len() ==> s@[i] < s@[j],
            runs_apart(runs@),
            forall|i: int| 0 <= i < cursor ==> in_runs(runs@, #[trigger] s@[i]),
            forall|p: u32| #[trigger] in_runs(runs@, p) ==> s@.take(cursor as int).contains(p),
            cursor < s@.len() ==> forall|r: int|
                0 <= r < runs@.len() ==> (#[trigger] runs@[r]).last + 1 < s@[cursor as int],
        decreases s@.len() - cursor,
    {
        let ghost before = runs@;
        let ghost from = cursor as int;
        let start: u32 = s[cursor];
        let mut end: u32 = start;
        cursor += 1;
        while cursor < s.len() && end < 0xffff_ffff && s[cursor] == end + 1
            invariant
                from < cursor <= s@.len(),
                start == s@[from],
                end == s@[cursor - 1],
                forall|i: int| from <= i < cursor ==> #[trigger] s@[i] == start + (i - from),
                forall|i: int, j: int| 0 <= i < j < s@.len() ==> s@[i] < s@[j],
            decreases s@.len() - cursor,
        {
            end = s[cursor];
            cursor += 1;
        }
        let run = PageRun { first: start, last: end };
        runs.push(run);
        proof {
            assert(end == start + (cursor - 1 - from)) by {
                assert(s@[cursor - 1] == end);
            }
            assert(runs@ =~= before.push(run));
            assert forall|i: int| 0 <= i < cursor implies in_runs(runs@, #[trigger] s@[i]) by {
                if i < from {
                    let r = choose|r: int| 0 <= r < before.len() && (#[trigger] before[r]).has(s@[i]);
                    assert(runs@[r].has(s@[i]));
                } else {
                    assert(runs@[before.len() as int].has(s@[i]));
                }
            }
            assert forall|p: u32| #[trigger] in_runs(runs@, p) implies s@.take(
                cursor as int,
            ).contains(p) by {
                let r = choose|r: int| 0 <= r < runs@.len() && (#[trigger] runs@[r]).has(p);
                if r < before.len() {
                    assert(before[r].has(p));
                    assert(in_runs(before, p));
                    let i = choose|i: int| 0 <= i < from && s@.take(from)[i] == p;
                    assert(s@.take(cursor as int)[i] == p);
                } else {
                    let i = from + (p - start);
                    assert(s@[i] == p);
                    assert(s@.take(cursor as int)[i] == p);
                }
            }
            if cursor < s@.len() {
                assert(s@[cursor - 1] < s@[cursor as int]);
                assert forall|r: int| 0 <= r < runs@.len() implies (#[trigger] runs@[r]).last + 1
                    < s@[cursor as int] by {
                    if r < before.len() {
                        assert(before[r] == runs@[r]);
                        assert(s@[from] < s@[cursor as int]);
                    }
                }
            }
        }
    }
    proof {
        assert(s@.take(cursor as int) =~= s@);
        assert forall|p: u32| #[trigger] s@.contains(p) <==> in_runs(runs@, p) by {
            if s@.contains(p) {
                let i = choose|i: int| 0 <= i < s@.len() && s@[i] == p;
                assert(in_runs(runs@, s@[i]));
            }
        }
    }
    runs
}

/// Gives the pages back to the host, range by range. Returns the memory with the number of
/// pages, or with `None` where a range could not be discarded.
pub fn inflate<D: Fn(GuestMemoryMmap, u64, u64) -> (GuestMemoryMmap, bool)>(
    discard: &D,
    mem: GuestMemoryMmap,
    pfns: &Vec<u32>,
) -> (r: (GuestMemoryMmap, Option<u64>))
    requires
        discard_keeps_mapping(*discard),
    ensures
        guest_memory::guest_bytes(r.0).dom() == guest_memory::guest_bytes(mem).dom(),
        inflates(
            *discard,
            pfns@,
            guest_memory::guest_bytes(mem),
            guest_memory::guest_bytes(r.0),
            r.1 is Some,
        ),
        r.1 matches Some(n) ==> n == pfns@.to_set().len(),
{
    let ghost ram0 = guest_memory::guest_bytes(mem);
    let sorted = sorted_pages(pfns);
    let count: u64 = sorted.len() as u64;
    proof {
        sorted@.unique_seq_to_set();
        assert(sorted@.to_set() =~= pfns@.to_set());
    }
    let runs = runs_of_sorted(&sorted);
    assert forall|p: u32| #[trigger] pfns@.contains(p) <==> in_runs(runs@, p) by {
        assert(sorted@.contains(p) <==> pfns@.contains(p));
    }
    let ghost all = runs@;
    let mut cur = mem;
    let mut i: usize = 0;
    assert(all.skip(0) =~= all);
    while i < runs.len()
        invariant
            i <= all.len(),
            all == runs@,
            ram0 == guest_memory::guest_bytes(mem),
            runs_apart(all),
            is_page_runs(pfns@, all),
            discard_keeps_mapping(*discard),
            guest_memory::guest_bytes(cur).dom() == ram0.dom(),
            forall|ram2: Map<int, u8>, ok: bool|
                #[trigger] discards(
                    *discard,
                    guest_memory::guest_bytes(cur),
                    all.skip(i as int),
                    ram2,
                    ok,
                ) ==> discards(*discard, ram0, all, ram2, ok),
        decreases all.len() - i,
    {
        let run = runs[i];
        let ghost rest = all.skip(i as int);
        let ghost ram1 = guest_memory::guest_bytes(cur);
        let ghost cur1 = cur;
        assert(rest[0] == run);
        assert(all[i as int].first <= all[i as int].last);
        let gpa: u64 = run.first as u64 * PAGE_SIZE;
        let length: u64 = (run.last as u64 - run.first as u64 + 1) * PAGE_SIZE;
        let (after, ok) = discard(cur, gpa, length);
        cur = after;
        let ghost ram3 = guest_memory::guest_bytes(cur);
        proof {
            assert(call_ensures(*discard, (cur1, gpa, length), (after, ok)));
            assert(discard_answer(*discard, ram1, run.gpa(), run.bytes(), ram3, ok));
            assert(rest.skip(1) =~= all.skip(i + 1));
        }
        if !ok {
            assert(discards(*discard, ram1, rest, ram3, false));
            return (cur, None);
        }
        proof {
            assert forall|ram2: Map<int, u8>, ok: bool|
                #[trigger] discards(*discard, ram3, all.skip(i + 1), ram2, ok) implies discards(
                *discard,
                ram0,
                all,
                ram2,
                ok,
            ) by {
                assert(discards(*discard, ram1, rest, ram2, ok));
            }
        }
        i += 1;
    }
    let ghost ram3 = guest_memory::guest_bytes(cur);
    assert(discards(*discard, ram3, all.skip(i as int), ram3, true));
    assert(discards(*discard, ram0, all, ram3, true));
    (cur, Some(count))
}

/// There is only one way to write pages as runs.
pub proof fn law_page_runs_unique(pages: Seq<u32>, a: Seq<PageRun>, b: Seq<PageRun>)
    requires
        is_page_runs(pages, a),
        is_page_runs(pages, b),
    ensures
        a == b,
{
    assert forall|p: u32| #[trigger] in_runs(a, p) <==> in_runs(b, p) by {
        assert(pages.contains(p) <==> in_runs(a, p));
    }
    lemma_runs_unique(a, b);
}

proof fn lemma_runs_unique(a: Seq<PageRun>, b: Seq<PageRun>)
    requires
        runs_apart(a),
        runs_apart(b),
        forall|p: u32| #[trigger] in_runs(a, p) <==> in_runs(b, p),
    ensures
        a == b,
    decreases a.len(),
{
    if a.len() == 0 {
        if b.len() > 0 {
            assert(b[0].has(b[0].first));
            assert(in_runs(a, b[0].first));
        }
    } else {
        assert(a[0].has(a[0].first));
        assert(in_runs(a, a[0].first));
        assert(in_runs(b, a[0].first));
        lemma_first_run(a, b);
        lemma_first_run(b, a);
        lemma_rest_of_runs(a);
        lemma_rest_of_runs(b);
        lemma_runs_unique(a.skip(1), b.skip(1));
        assert(a =~= seq![a[0]] + a.skip(1));
        assert(b =~= seq![b[0]] + b.skip(1));
    }
}

/// The first run of `b` starts no later and ends no later than that of `a`, where both hold the
/// same pages.
proof fn lemma_first_run(a: Seq<PageRun>, b: Seq<PageRun>)
    requires
        runs_apart(a),
        runs_apart(b),
        a.len() > 0,
        b.len() > 0,
        forall|p: u32| #[trigger] in_runs(a, p) <==> in_runs(b, p),
    ensures
        b[0].first <= a[0].first,
        b[0].first == a[0].first ==> b[0].last <= a[0].last,
{
    assert(a[0].has(a[0].first));
    assert(in_runs(a, a[0].first));
    let i = choose|i: int| 0 <= i < b.len() && (#[trigger] b[i]).has(a[0].first);
    assert(b[0].first <= b[i].first);
    if b[0].first == a[0].first && b[0].last > a[0].last {
        let p = (a[0].last + 1) as u32;
        assert(b[0].has(p));
        assert(in_runs(b, p));
        assert(in_runs(a, p));
        let j = choose|j: int| 0 <= j < a.len() && (#[trigger] a[j]).has(p);
        assert(a[0].last + 1 < a[j].first);
    }
}

/// What is left after the first run: the pages behind it.
proof fn lemma_rest_of_runs(a: Seq<PageRun>)
    requires
        runs_apart(a),
        a.len() > 0,
    ensures
        runs_apart(a.skip(1)),
        forall|p: u32| #[trigger] in_runs(a.skip(1), p) <==> in_runs(a, p) && p > a[0].last,
{
    let rest = a.skip(1);
    assert forall|i: int| 0 <= i < rest.len() implies (#[trigger] rest[i]).first
        <= rest[i].last by {
        assert(rest[i] == a[i + 1]);
    }
    assert forall|i: int, j: int| 0 <= i < j < rest.len() implies (#[trigger] rest[i]).last + 1 < (
    #[trigger] rest[j]).first by {
        assert(rest[i] == a[i + 1]);
        assert(rest[j] == a[j + 1]);
    }
    assert forall|p: u32| #[trigger] in_runs(rest, p) <==> in_runs(a, p) && p > a[0].last by {
        if in_runs(rest, p) {
            let i = choose|i: int| 0 <= i < rest.len() && (#[trigger] rest[i]).has(p);
            assert(a[i + 1].has(p));
        }
        if in_runs(a, p) && p > a[0].last {
            let i = choose|i: int| 0 <= i < a.len() && (#[trigger] a[i]).has(p);
            assert(rest[i - 1].has(p));
        }
    }
}

/// With a discard that zeroes, inflating zeroes exactly the pages that were named: each byte of
/// them reads as zero, and every other byte is what it was.
pub proof fn law_inflate_zeroes_pages<
    D: Fn(GuestMemoryMmap, u64, u64) -> (GuestMemoryMmap, bool),
>(discard: D, pfns: Seq<u32>, ram: Map<int, u8>, ram2: Map<int, u8>, pfn: u32, a: int)
    requires
        discard_zeroes(discard),
        inflates(discard, pfns, ram, ram2, true),
        ram.dom().contains(a),
        pfn * 4096 <= a < (pfn + 1) * 4096,
    ensures
        ram2.dom() == ram.dom(),
        ram2[a] == (if pfns.contains(pfn) {
            0
        } else {
            ram[a]
        }),
{
    let runs = choose|runs: Seq<PageRun>|
        is_page_runs(pfns, runs) && #[trigger] discards(discard, ram, runs, ram2, true);
    lemma_discards_zero(discard, ram, runs, ram2, pfn, a);
    assert(pfns.contains(pfn) <==> in_runs(runs, pfn));
}

proof fn lemma_discards_zero<D: Fn(GuestMemoryMmap, u64, u64) -> (GuestMemoryMmap, bool)>(
    discard: D,
    ram: Map<int, u8>,
    runs: Seq<PageRun>,
    ram2: Map<int, u8>,
    pfn: u32,
    a: int,
)
    requires
        discard_zeroes(discard),
        discards(discard, ram, runs, ram2, true),
        runs_apart(runs),
        ram.dom().contains(a),
        pfn * 4096 <= a < (pfn + 1) * 4096,
    ensures
        ram2.dom() == ram.dom(),
        ram2[a] == (if in_runs(runs, pfn) {
            0
        } else {
            ram[a]
        }),
    decreases runs.len(),
{
    if runs.len() > 0 {
        let run = runs[0];
        let r = choose|r: Map<int, u8>|
            #[trigger] discard_answer(discard, ram, run.gpa(), run.bytes(), r, true) && discards(
                discard,
                r,
                runs.skip(1),
                ram2,
                true,
            );
        let rest = runs.skip(1);
        lemma_rest_of_runs(runs);
        assert(r.dom() =~= ram.dom());
        lemma_discards_zero(discard, r, rest, ram2, pfn, a);
        assert(run.first <= run.last);
        assert(in_runs(rest, pfn) <==> in_runs(runs, pfn) && pfn > run.last);
        if in_runs(runs, pfn) && pfn <= run.last {
            let i = choose|i: int| 0 <= i < runs.len() && (#[trigger] runs[i]).has(pfn);
            assert(i == 0);
        }
        if run.has(pfn) {
            assert(runs[0].has(pfn));
        }
    }
}

} // verus!
