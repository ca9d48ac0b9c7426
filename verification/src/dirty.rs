//! Record of the guest pages that the host wrote.
use vstd::prelude::*;

verus! {

/// Size of a guest page.
pub const DIRTY_PAGE_SIZE: u64 = 4096;

/// Whether the page of `addr` holds a byte of `[range.0, range.0 + range.1)`.
pub open spec fn touches_page(range: (u64, u64), addr: int) -> bool {
    &&& range.1 > 0
    &&& range.0 as int / 4096 <= addr / 4096
    &&& addr / 4096 <= (range.0 + range.1 - 1) / 4096
}

/// The ranges that the host wrote since the last [`drain`](SoftwareDirtyBitmap::drain), in the
/// order in which they were written.
pub struct SoftwareDirtyBitmap {
    pub ranges: Vec<(u64, u64)>,
}

/// What a [`drain`](SoftwareDirtyBitmap::drain) took out.
pub struct DirtyPages {
    pub ranges: Vec<(u64, u64)>,
}

impl View for SoftwareDirtyBitmap {
    type V = Seq<(u64, u64)>;

    open spec fn view(&self) -> Seq<(u64, u64)> {
        self.ranges@
    }
}

impl SoftwareDirtyBitmap {
    pub fn new() -> (d: Self)
        ensures
            d@ == Seq::<(u64, u64)>::empty(),
    {
        SoftwareDirtyBitmap { ranges: Vec::new() }
    }

    /// Records that `[addr, addr + len)` was written.
    pub fn mark_range(&mut self, addr: u64, len: u64)
        ensures
            final(self)@ == old(self)@.push((addr, len)),
    {
        self.ranges.push((addr, len));
    }

    /// Takes the record and starts an empty one.
    pub fn drain(&mut self) -> (d: DirtyPages)
        ensures
            d.ranges@ == old(self)@,
            final(self)@ == Seq::<(u64, u64)>::empty(),
    {
        let mut ranges: Vec<(u64, u64)> = Vec::new();
        std::mem::swap(&mut ranges, &mut self.ranges);
        DirtyPages { ranges }
    }
}

impl DirtyPages {
    /// Whether the page of `addr` was written.
    pub fn contains(&self, addr: u64) -> (r: bool)
        ensures
            r == exists|i: int|
                0 <= i < self.ranges@.len() && touches_page(#[trigger] self.ranges@[i], addr as int),
    {
        let page: u64 = addr / DIRTY_PAGE_SIZE;
        let mut i: usize = 0;
        while i < self.ranges.len()
            invariant
                i <= self.ranges@.len(),
                page == addr / 4096,
                forall|j: int|
                    0 <= j < i ==> !touches_page(#[trigger] self.ranges@[j], addr as int),
            decreases self.ranges@.len() - i,
        {
            let (start, len) = self.ranges[i];
            if len > 0 {
                let last: u64 = start.saturating_add(len - 1);
                if start / DIRTY_PAGE_SIZE <= page && page <= last / DIRTY_PAGE_SIZE {
                    assert(touches_page(self.ranges@[i as int], addr as int));
                    return true;
                }
            }
            i += 1;
        }
        false
    }
}

/// A range touches the page of an address exactly where some byte of that page lies in it. Pages
/// have 4096 bytes.
pub proof fn law_page_of_every_written_byte_is_dirty(range: (u64, u64), addr: int)
    ensures
        touches_page(range, addr) <==> exists|a: int|
            a / 4096 == addr / 4096 && #[trigger] in_range(range, a),
{
    if touches_page(range, addr) {
        let page = addr / 4096;
        let a = if range.0 >= page * 4096 {
            range.0 as int
        } else {
            page * 4096
        };
        assert(a / 4096 == addr / 4096 && in_range(range, a));
    }
}

/// Address `a` lies in the range that starts at `range.0` and has `range.1` bytes.
pub open spec fn in_range(range: (u64, u64), a: int) -> bool {
    range.0 <= a < range.0 + range.1
}

/// What is marked is on the record until it is drained, and only then: a drain gives every range
/// that was marked since the last one, in that order, and leaves nothing.
pub proof fn law_record_is_drained_once(addr: u64, len: u64, pages: DirtyPages)
    ensures
        forall|d: &mut SoftwareDirtyBitmap| #[trigger]
            call_ensures(SoftwareDirtyBitmap::mark_range, (d, addr, len), ()) ==> {
                let (before, after) = ((*d)@, (*final(d))@);
                &&& after.len() == before.len() + 1
                &&& after[after.len() - 1].0 == addr && after[after.len() - 1].1 == len
                &&& forall|i: int| 0 <= i < before.len() ==> #[trigger] after[i] == before[i]
            },
        forall|d: &mut SoftwareDirtyBitmap| #[trigger]
            call_ensures(SoftwareDirtyBitmap::drain, (d,), pages) ==> {
                &&& pages.ranges@.len() == (*d)@.len()
                &&& forall|i: int|
                    0 <= i < (*d)@.len() ==> #[trigger] pages.ranges@[i] == (*d)@[i]
                &&& (*final(d))@.len() == 0
            },
{
}

/// A page that is found on the record has a byte that was marked.
pub proof fn law_found_page_was_written(pages: &DirtyPages, addr: u64)
    requires
        call_ensures(DirtyPages::contains, (pages, addr), true),
    ensures
        exists|i: int, a: int|
            0 <= i < pages.ranges@.len() && a / 4096 == addr as int / 4096 && in_range(
                #[trigger] pages.ranges@[i],
                a,
            ) && #[trigger] same_page(a, addr as int),
{
    let i = choose|i: int|
        0 <= i < pages.ranges@.len() && touches_page(#[trigger] pages.ranges@[i], addr as int);
    law_page_of_every_written_byte_is_dirty(pages.ranges@[i], addr as int);
    let a = choose|a: int|
        a / 4096 == addr as int / 4096 && #[trigger] in_range(pages.ranges@[i], a);
    assert(same_page(a, addr as int));
}

/// Both addresses lie in one page.
pub open spec fn same_page(a: int, b: int) -> bool {
    a / 4096 == b / 4096
}

} // verus!
