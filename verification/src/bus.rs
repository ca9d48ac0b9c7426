//! MMIO bus: the single transport for all devices (no PCI).
//!
//! Each device gets a 4 KiB MMIO range at a guest-physical address. vCPU MMIO exits are
//! dispatched here: one flat bus, no PCI hierarchy.
use vstd::prelude::*;

verus! {

#[derive(Debug, Copy, Clone, PartialEq, Eq, Structural)]
pub enum BusError {
    /// The range overlaps an existing device.
    Overlap { base: u64, end: u64 },
    /// No device is mapped at the address.
    Unmapped(u64),
}

/// An MMIO access failure (unmapped address, bad alignment, device error).
#[derive(Debug, Copy, Clone, PartialEq, Eq, Structural)]
pub enum MmioError {
    /// No device is mapped at the address.
    Unmapped(u64),
    /// The device rejected the access.
    Device,
}

pub type MmioReadResult = Result<u64, MmioError>;

pub type MmioWriteResult = Result<(), MmioError>;

/// A 4 KiB MMIO range assigned to a device.
#[derive(Debug, Copy, Clone, PartialEq, Eq, Structural)]
pub struct MmioRange {
    pub base: u64,
    pub size: u64,
}

impl MmioRange {
    /// The range ends within the address space.
    pub open spec fn wf(self) -> bool {
        self.base + self.size <= u64::MAX
    }

    /// The addresses of the range.
    pub open spec fn holds(self, addr: int) -> bool {
        self.base <= addr < self.base + self.size
    }

    /// Each range starts before the other ends.
    pub open spec fn overlaps(self, other: MmioRange) -> bool {
        self.base < other.base + other.size && other.base < self.base + self.size
    }

    pub fn new(base: u64, size: u64) -> (r: Self)
        ensures
            r == (MmioRange { base, size }),
    {
        MmioRange { base, size }
    }

    pub fn end(&self) -> (e: u64)
        requires
            self.wf(),
        ensures
            e == self.base + self.size,
    {
        self.base + self.size
    }

    pub fn contains(&self, addr: u64) -> (r: bool)
        requires
            self.wf(),
        ensures
            r == self.holds(addr as int),
    {
        self.base <= addr && addr < self.end()
    }
}

/// A device that can be addressed over MMIO.
pub trait MmioDevice: Send + Sync {
    /// A read may give `r`. A device that does not say may give anything.
    open spec fn reads(&self, offset: u64, len: u8, r: MmioReadResult) -> bool {
        true
    }

    /// A write may turn the device into `post` and give `r`.
    open spec fn writes(
        &self,
        offset: u64,
        val: u64,
        len: u8,
        post: &Self,
        r: MmioWriteResult,
    ) -> bool {
        true
    }

    /// The device accepts accesses.
    open spec fn inv(&self) -> bool {
        true
    }

    /// Read `len` bytes at `offset` within this device's MMIO range.
    fn mmio_read(&self, offset: u64, len: u8) -> (r: MmioReadResult)
        requires
            self.inv(),
        ensures
            self.reads(offset, len, r),
    ;

    /// Write `val` of `len` bytes at `offset` within this device's MMIO range.
    fn mmio_write(&mut self, offset: u64, val: u64, len: u8) -> (r: MmioWriteResult)
        requires
            old(self).inv(),
        ensures
            final(self).inv(),
            old(self).writes(offset, val, len, final(self), r),
    ;
}

impl<T: MmioDevice> MmioDevice for Box<T> {
    open spec fn reads(&self, offset: u64, len: u8, r: MmioReadResult) -> bool {
        (**self).reads(offset, len, r)
    }

    open spec fn writes(
        &self,
        offset: u64,
        val: u64,
        len: u8,
        post: &Self,
        r: MmioWriteResult,
    ) -> bool {
        (**self).writes(offset, val, len, &**post, r)
    }

    open spec fn inv(&self) -> bool {
        (**self).inv()
    }

    fn mmio_read(&self, offset: u64, len: u8) -> (r: MmioReadResult) {
        (**self).mmio_read(offset, len)
    }

    fn mmio_write(&mut self, offset: u64, val: u64, len: u8) -> (r: MmioWriteResult) {
        (**self).mmio_write(offset, val, len)
    }
}

/// A device on the bus and its range.
pub struct BusEntry<D> {
    pub range: MmioRange,
    pub dev: D,
}

/// The MMIO bus: dispatches vCPU MMIO exits to the right device.
pub struct MmioBus<D> {
    /// The ranges and their devices, no two with the same base.
    pub devices: Vec<BusEntry<D>>,
}

impl<D: MmioDevice> MmioBus<D> {
    /// All ranges end within the address space, no two overlap or start at the same address,
    /// and all devices accept accesses.
    pub open spec fn wf(&self) -> bool {
        &&& forall|i: int|
            0 <= i < self.devices@.len() ==> (#[trigger] self.devices@[i]).range.wf()
                && self.devices@[i].dev.inv()
        &&& forall|i: int, j: int|
            #![trigger self.devices@[i], self.devices@[j]]
            0 <= i < j < self.devices@.len() ==> self.devices@[i].range.base != self.devices@[j].range.base
                && !self.devices@[i].range.overlaps(self.devices@[j].range)
    }

    /// Device `i` is the one that `addr` belongs to: of all ranges that start at or before the
    /// address its range starts last, and it holds the address.
    pub open spec fn serves(&self, i: int, addr: u64) -> bool {
        &&& 0 <= i < self.devices@.len()
        &&& self.devices@[i].range.holds(addr as int)
        &&& forall|j: int|
            0 <= j < self.devices@.len() && (#[trigger] self.devices@[j]).range.base <= addr
                ==> self.devices@[j].range.base <= self.devices@[i].range.base
    }

    pub fn new() -> (b: Self)
        ensures
            b.wf(),
            b.devices@.len() == 0,
    {
        MmioBus { devices: Vec::new() }
    }

    /// Puts a device on the bus, unless its range overlaps another one. An empty range at the
    /// base of a device takes that device's place.
    pub fn insert(&mut self, range: MmioRange, dev: D) -> (r: Result<
        (),
        BusError,
    >)
        requires
            old(self).wf(),
            range.wf(),
            dev.inv(),
        ensures
            final(self).wf(),
            r == (if exists|i: int|
                0 <= i < old(self).devices@.len() && range.overlaps(
                    (#[trigger] old(self).devices@[i]).range,
                ) {
                Err::<(), BusError>(
                    BusError::Overlap { base: range.base, end: (range.base + range.size) as u64 },
                )
            } else {
                Ok(())
            }),
            r is Err ==> final(self).devices@ == old(self).devices@,
            r is Ok ==> final(self).devices@ == old(self).devices@.push(BusEntry { range, dev }) || exists|
                i: int,
            |
                0 <= i < old(self).devices@.len() && (#[trigger] old(self).devices@[i]).range.base
                    == range.base && final(self).devices@ == old(self).devices@.update(
                    i,
                    BusEntry { range, dev },
                ),
            r is Ok && (forall|i: int|
                0 <= i < old(self).devices@.len() ==> (#[trigger] old(self).devices@[i]).range.base
                    != range.base) ==> final(self).devices@ == old(self).devices@.push(BusEntry { range, dev }),
    {
        let mut i: usize = 0;
        let mut same: Option<usize> = None;
        while i < self.devices.len()
            invariant
                i <= self.devices@.len(),
                self.devices@ == old(self).devices@,
                self.wf(),
                range.wf(),
                forall|j: int|
                    0 <= j < i ==> !range.overlaps((#[trigger] self.devices@[j]).range),
                same is None ==> forall|j: int|
                    0 <= j < i ==> (#[trigger] self.devices@[j]).range.base != range.base,
                same matches Some(k) ==> k < i && self.devices@[k as int].range.base == range.base,
            decreases self.devices@.len() - i,
        {
            let r = self.devices[i].range;
            assert(self.devices@[i as int].range.wf());
            if range.base < r.end() && r.base < range.end() {
                assert(range.overlaps(self.devices@[i as int].range));
                return Err(BusError::Overlap { base: range.base, end: range.end() });
            }
            if r.base == range.base {
                same = Some(i);
            }
            i += 1;
        }
        let ghost before = self.devices@;
        match same {
            Some(k) => {
                self.devices.set(k, BusEntry { range, dev });
                proof {
                    assert forall|a: int, b: int|
                        #![trigger self.devices@[a], self.devices@[b]]
                        0 <= a < b < self.devices@.len() implies self.devices@[a].range.base
                        != self.devices@[b].range.base && !self.devices@[a].range.overlaps(
                        self.devices@[b].range,
                    ) by {
                        assert(before[a].range.base != before[b].range.base);
                        assert(before[a].range.base != before[k as int].range.base || a == k);
                        assert(before[k as int].range.base != before[b].range.base || b == k);
                    }
                    assert forall|a: int| 0 <= a < self.devices@.len() implies (
                    #[trigger] self.devices@[a]).range.wf() && self.devices@[a].dev.inv() by {
                        assert(before[a].range.wf());
                    }
                }
            },
            None => {
                self.devices.push(BusEntry { range, dev });
                proof {
                    assert forall|a: int, b: int|
                        #![trigger self.devices@[a], self.devices@[b]]
                        0 <= a < b < self.devices@.len() implies self.devices@[a].range.base
                        != self.devices@[b].range.base && !self.devices@[a].range.overlaps(
                        self.devices@[b].range,
                    ) by {
                        assert(before[a].range.wf());
                        if b < before.len() {
                            assert(before[a].range.base != before[b].range.base);
                        }
                    }
                    assert forall|a: int| 0 <= a < self.devices@.len() implies (
                    #[trigger] self.devices@[a]).range.wf() && self.devices@[a].dev.inv() by {
                        if a < before.len() {
                            assert(before[a].range.wf());
                        }
                    }
                }
            },
        }
        Ok(())
    }

    /// Find the device whose range contains `addr`.
    pub fn device_at(&self, addr: u64) -> (r: Option<usize>)
        requires
            self.wf(),
        ensures
            match r {
                Some(i) => self.serves(i as int, addr),
                None => forall|i: int| !self.serves(i, addr),
            },
    {
        let mut i: usize = 0;
        let mut last: Option<usize> = None;
        while i < self.devices.len()
            invariant
                i <= self.devices@.len(),
                last is None ==> forall|j: int|
                    0 <= j < i ==> (#[trigger] self.devices@[j]).range.base > addr,
                last matches Some(k) ==> {
                    &&& k < i
                    &&& self.devices@[k as int].range.base <= addr
                    &&& forall|j: int|
                        0 <= j < i && (#[trigger] self.devices@[j]).range.base <= addr
                            ==> self.devices@[j].range.base <= self.devices@[k as int].range.base
                },
            decreases self.devices@.len() - i,
        {
            let base: u64 = self.devices[i].range.base;
            if base <= addr {
                match last {
                    Some(k) => {
                        if self.devices[k].range.base <= base {
                            last = Some(i);
                        }
                    },
                    None => {
                        last = Some(i);
                    },
                }
            }
            i += 1;
        }
        match last {
            Some(k) => {
                assert(self.devices@[k as int].range.wf());
                if self.devices[k].range.contains(addr) {
                    Some(k)
                } else {
                    assert forall|i: int| !self.serves(i, addr) by {
                        if self.serves(i, addr) {
                            assert(self.devices@[k as int].range.base <= self.devices@[i].range.base);
                            assert(self.devices@[i].range.base <= self.devices@[k as int].range.base);
                            if i < k {
                                assert(self.devices@[i].range.base != self.devices@[k as int].range.base);
                            } else if k < i {
                                assert(self.devices@[k as int].range.base != self.devices@[i].range.base);
                            }
                        }
                    }
                    None
                }
            },
            None => None,
        }
    }

    pub fn read(&self, addr: u64, len: u8) -> (r: MmioReadResult)
        requires
            self.wf(),
        ensures
            (forall|i: int| !self.serves(i, addr)) ==> r == Err::<u64, MmioError>(
                MmioError::Unmapped(addr),
            ),
            forall|i: int|
                #[trigger] self.serves(i, addr) ==> self.devices@[i].dev.reads(
                    (addr - self.devices@[i].range.base) as u64,
                    len,
                    r,
                ),
    {
        match self.device_at(addr) {
            Some(k) => {
                let offset: u64 = addr - self.devices[k].range.base;
                proof {
                    assert(self.devices@[k as int].dev.inv());
                    assert forall|i: int| #[trigger] self.serves(i, addr) implies i == k by {
                        self.lemma_serves_unique(i, k as int, addr);
                    }
                }
                self.devices[k].dev.mmio_read(offset, len)
            },
            None => Err(MmioError::Unmapped(addr)),
        }
    }

    pub fn write(&mut self, addr: u64, val: u64, len: u8) -> (r: MmioWriteResult)
        requires
            old(self).wf(),
        ensures
            final(self).wf(),
            (forall|i: int| !old(self).serves(i, addr)) ==> r == Err::<(), MmioError>(
                MmioError::Unmapped(addr),
            ) && final(self).devices@ == old(self).devices@,
            forall|i: int|
                #[trigger] old(self).serves(i, addr) ==> old(self).devices@[i].dev.writes(
                    (addr - old(self).devices@[i].range.base) as u64,
                    val,
                    len,
                    &final(self).devices@[i].dev,
                    r,
                ) && final(self).devices@ == old(self).devices@.update(
                    i,
                    BusEntry { range: old(self).devices@[i].range, dev: final(self).devices@[i].dev },
                ),
    {
        match self.device_at(addr) {
            Some(k) => {
                let ghost before = self.devices@;
                let range = self.devices[k].range;
                let offset: u64 = addr - range.base;
                proof {
                    assert(self.devices@[k as int].dev.inv());
                    assert forall|i: int| #[trigger] self.serves(i, addr) implies i == k by {
                        self.lemma_serves_unique(i, k as int, addr);
                    }
                }
                let r = self.devices[k].dev.mmio_write(offset, val, len);
                proof {
                    assert(self.devices@ =~= before.update(
                        k as int,
                        BusEntry { range, dev: self.devices@[k as int].dev },
                    ));
                    assert forall|a: int, b: int|
                        #![trigger self.devices@[a], self.devices@[b]]
                        0 <= a < b < self.devices@.len() implies self.devices@[a].range.base
                        != self.devices@[b].range.base && !self.devices@[a].range.overlaps(
                        self.devices@[b].range,
                    ) by {
                        assert(before[a].range.base != before[b].range.base);
                    }
                    assert forall|a: int| 0 <= a < self.devices@.len() implies (
                    #[trigger] self.devices@[a]).range.wf() && self.devices@[a].dev.inv() by {
                        assert(before[a].range.wf());
                    }
                }
                r
            },
            None => Err(MmioError::Unmapped(addr)),
        }
    }

    /// No two devices serve the same address.
    pub proof fn lemma_serves_unique(&self, i: int, j: int, addr: u64)
        requires
            self.wf(),
            self.serves(i, addr),
            self.serves(j, addr),
        ensures
            i == j,
    {
        assert(self.devices@[i].range.base <= self.devices@[j].range.base);
        assert(self.devices@[j].range.base <= self.devices@[i].range.base);
        if i < j {
            assert(self.devices@[i].range.base != self.devices@[j].range.base);
        } else if j < i {
            assert(self.devices@[j].range.base != self.devices@[i].range.base);
        }
    }

    /// Every address inside a device's range is served by that device.
    pub proof fn law_range_is_served(&self, i: int, addr: u64)
        requires
            self.wf(),
            0 <= i < self.devices@.len(),
            self.devices@[i].range.holds(addr as int),
        ensures
            self.serves(i, addr),
    {
        assert forall|j: int|
            0 <= j < self.devices@.len() && (#[trigger] self.devices@[j]).range.base
                <= addr implies self.devices@[j].range.base <= self.devices@[i].range.base by {
            if i < j {
                assert(!self.devices@[i].range.overlaps(self.devices@[j].range));
            } else if j < i {
                assert(!self.devices@[j].range.overlaps(self.devices@[i].range));
            }
        }
    }
}

impl<D: MmioDevice> Default for MmioBus<D> {
    fn default() -> (b: Self)
        ensures
            b.wf(),
            b.devices@.len() == 0,
    {
        Self::new()
    }
}

/// Ranges that are not empty overlap exactly where some address lies in both.
pub proof fn law_overlap_is_a_shared_address(a: MmioRange, b: MmioRange)
    requires
        a.size > 0,
        b.size > 0,
    ensures
        a.overlaps(b) <==> exists|x: int|
            a.base <= x < a.base + a.size && b.base <= x < b.base + b.size && #[trigger] a.holds(x),
        forall|x: int| #[trigger] a.holds(x) <==> a.base <= x < a.base + a.size,
{
    if a.overlaps(b) {
        let x = if a.base < b.base {
            b.base as int
        } else {
            a.base as int
        };
        assert(a.holds(x));
    }
}

/// A read of the bus is a read of the device whose range has the address, at the distance of the
/// address from the start of its range; an address in no range is not mapped.
pub proof fn law_read_reaches_its_device<D: MmioDevice>(
    bus: &MmioBus<D>,
    addr: u64,
    len: u8,
    r: MmioReadResult,
    i: int,
)
    requires
        bus.wf(),
        call_ensures(MmioBus::<D>::read, (bus, addr, len), r),
    ensures
        0 <= i < bus.devices@.len() && bus.devices@[i].range.base <= addr
            < bus.devices@[i].range.base + bus.devices@[i].range.size ==> bus.devices@[i].dev.reads(
            (addr - bus.devices@[i].range.base) as u64,
            len,
            r,
        ),
        (forall|j: int|
            0 <= j < bus.devices@.len() ==> !((#[trigger] bus.devices@[j]).range.base <= addr
                < bus.devices@[j].range.base + bus.devices@[j].range.size)) ==> r == Err::<
            u64,
            MmioError,
        >(MmioError::Unmapped(addr)),
{
    if 0 <= i < bus.devices@.len() && bus.devices@[i].range.holds(addr as int) {
        bus.law_range_is_served(i, addr);
    }
    if forall|j: int|
        0 <= j < bus.devices@.len() ==> !((#[trigger] bus.devices@[j]).range.base <= addr
            < bus.devices@[j].range.base + bus.devices@[j].range.size) {
        assert forall|k: int| !bus.serves(k, addr) by {}
    }
}

/// A device that was put on the bus answers at every address of its range, and the devices that
/// were there before answer as they did. It is refused exactly where its range overlaps that of
/// another device; the bus then stays as it was.
pub proof fn law_inserted_device_answers<D: MmioDevice>(
    range: MmioRange,
    dev: D,
    r: Result<(), BusError>,
)
    ensures
        forall|b: &mut MmioBus<D>| #[trigger]
            call_ensures(MmioBus::<D>::insert, (b, range, dev), r) && range.size > 0 && (*b).wf()
                && (forall|i: int|
                0 <= i < (*b).devices@.len() ==> (#[trigger] (*b).devices@[i]).range.base
                    != range.base) ==> {
                let (before, after) = ((*b).devices@, (*final(b)).devices@);
                if r is Ok {
                    &&& forall|i: int|
                        0 <= i < before.len() ==> !range.overlaps((#[trigger] before[i]).range)
                    &&& after.len() == before.len() + 1
                    &&& after[after.len() - 1].dev == dev
                    &&& after[after.len() - 1].range.base == range.base
                    &&& after[after.len() - 1].range.size == range.size
                    &&& forall|i: int| 0 <= i < before.len() ==> #[trigger] after[i] == before[i]
                    &&& forall|addr: u64|
                        range.base <= addr < range.base + range.size ==> #[trigger] (*final(b)).serves(
                            after.len() - 1,
                            addr,
                        )
                } else {
                    &&& exists|i: int|
                        0 <= i < before.len() && range.overlaps((#[trigger] before[i]).range)
                    &&& after == before
                    &&& r == Err::<(), BusError>(
                        BusError::Overlap {
                            base: range.base,
                            end: (range.base + range.size) as u64,
                        },
                    )
                }
            },
{
    assert forall|b: &mut MmioBus<D>| #[trigger]
        call_ensures(MmioBus::<D>::insert, (b, range, dev), r) && range.size > 0 && (*b).wf() && (
        forall|i: int|
            0 <= i < (*b).devices@.len() ==> (#[trigger] (*b).devices@[i]).range.base
                != range.base) implies {
        let (before, after) = ((*b).devices@, (*final(b)).devices@);
        if r is Ok {
            &&& forall|i: int|
                0 <= i < before.len() ==> !range.overlaps((#[trigger] before[i]).range)
            &&& after.len() == before.len() + 1
            &&& after[after.len() - 1].dev == dev
            &&& after[after.len() - 1].range.base == range.base
            &&& after[after.len() - 1].range.size == range.size
            &&& forall|i: int| 0 <= i < before.len() ==> #[trigger] after[i] == before[i]
            &&& forall|addr: u64|
                range.base <= addr < range.base + range.size ==> #[trigger] (*final(b)).serves(
                    after.len() - 1,
                    addr,
                )
        } else {
            &&& exists|i: int|
                0 <= i < before.len() && range.overlaps((#[trigger] before[i]).range)
            &&& after == before
            &&& r == Err::<(), BusError>(
                BusError::Overlap { base: range.base, end: (range.base + range.size) as u64 },
            )
        }
    } by {
        if r is Ok {
            let n = (*final(b)).devices@.len() - 1;
            assert((*final(b)).wf());
            assert forall|i: int| 0 <= i < n implies !range.overlaps(
                (#[trigger] (*b).devices@[i]).range,
            ) by {
                assert(!(*final(b)).devices@[i].range.overlaps((*final(b)).devices@[n].range));
            }
            assert forall|addr: u64|
                range.base <= addr < range.base + range.size implies #[trigger] (*final(b)).serves(
                n,
                addr,
            ) by {
                assert((*final(b)).wf());
                (*final(b)).law_range_is_served(n, addr);
            }
        }
    }
}

/// A write reaches the device whose range has the address, at the address's distance from the base
/// of that range, and no other device. Where no range has the address, nothing is written.
pub proof fn law_write_reaches_its_device<D: MmioDevice>(
    addr: u64,
    val: u64,
    len: u8,
    r: MmioWriteResult,
)
    ensures
        forall|b: &mut MmioBus<D>, i: int|
            #![trigger call_ensures(MmioBus::<D>::write, (b, addr, val, len), r), (*b).devices@[i]]
            call_ensures(MmioBus::<D>::write, (b, addr, val, len), r) && (*b).wf() && 0 <= i
                < (*b).devices@.len() && (*b).devices@[i].range.base <= addr
                < (*b).devices@[i].range.base + (*b).devices@[i].range.size ==> {
                let (before, after) = ((*b).devices@, (*final(b)).devices@);
                &&& after.len() == before.len()
                &&& before[i].dev.writes(
                    (addr - before[i].range.base) as u64,
                    val,
                    len,
                    &after[i].dev,
                    r,
                )
                &&& after[i].range == before[i].range
                &&& forall|j: int|
                    0 <= j < before.len() && j != i ==> #[trigger] after[j] == before[j]
            },
        forall|b: &mut MmioBus<D>| #[trigger]
            call_ensures(MmioBus::<D>::write, (b, addr, val, len), r) && (forall|i: int|
                0 <= i < (*b).devices@.len() ==> !((#[trigger] (*b).devices@[i]).range.base <= addr
                    < (*b).devices@[i].range.base + (*b).devices@[i].range.size)) ==> {
                &&& r == Err::<(), MmioError>(MmioError::Unmapped(addr))
                &&& (*final(b)).devices@ == (*b).devices@
            },
{
    assert forall|b: &mut MmioBus<D>, i: int|
        #![trigger call_ensures(MmioBus::<D>::write, (b, addr, val, len), r), (*b).devices@[i]]
        call_ensures(MmioBus::<D>::write, (b, addr, val, len), r) && (*b).wf() && 0 <= i
            < (*b).devices@.len() && (*b).devices@[i].range.base <= addr
            < (*b).devices@[i].range.base + (*b).devices@[i].range.size implies {
        let (before, after) = ((*b).devices@, (*final(b)).devices@);
        &&& after.len() == before.len()
        &&& before[i].dev.writes(
            (addr - before[i].range.base) as u64,
            val,
            len,
            &after[i].dev,
            r,
        )
        &&& after[i].range == before[i].range
        &&& forall|j: int| 0 <= j < before.len() && j != i ==> #[trigger] after[j] == before[j]
    } by {
        (*b).law_range_is_served(i, addr);
    }
}

} // verus!
