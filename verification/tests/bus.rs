use vmm_devices::bus::{BusError, MmioBus, MmioDevice, MmioError, MmioRange, MmioReadResult, MmioWriteResult};

struct EchoDev;

impl MmioDevice for EchoDev {
    fn mmio_read(&self, off: u64, _len: u8) -> MmioReadResult {
        Ok(off)
    }

    fn mmio_write(&mut self, _off: u64, _val: u64, _len: u8) -> MmioWriteResult {
        Ok(())
    }
}

/// Remembers the last value and hands it back.
struct CellDev {
    val: u64,
    off: u64,
}

impl MmioDevice for CellDev {
    fn mmio_read(&self, off: u64, _len: u8) -> MmioReadResult {
        if off == self.off {
            Ok(self.val)
        } else {
            Err(MmioError::Device)
        }
    }

    fn mmio_write(&mut self, off: u64, val: u64, _len: u8) -> MmioWriteResult {
        self.off = off;
        self.val = val;
        Ok(())
    }
}

#[test]
fn insert_and_read() {
    let mut bus = MmioBus::new();
    bus.insert(MmioRange::new(0xd000_0000, 0x1000), Box::new(EchoDev))
        .unwrap();
    assert_eq!(bus.read(0xd000_0000 + 5, 8).unwrap(), 5);
    assert!(bus.read(0xc000_0000, 8).is_err());
}

#[test]
fn overlap_rejected() {
    let mut bus = MmioBus::new();
    bus.insert(MmioRange::new(0x1000, 0x1000), Box::new(EchoDev))
        .unwrap();
    assert!(bus
        .insert(MmioRange::new(0x1800, 0x1000), Box::new(EchoDev))
        .is_err());
}

#[test]
fn range_ends_where_it_stops_containing() {
    let r = MmioRange::new(0x1000, 0x10);
    assert_eq!(r.end(), 0x1010);
    assert!(r.contains(0x1000));
    assert!(r.contains(0x100f));
    assert!(!r.contains(0x1010));
    assert!(!r.contains(0xfff));
}

#[test]
fn neighbouring_ranges_are_accepted_and_served_apart() {
    let mut bus = MmioBus::new();
    bus.insert(MmioRange::new(0x2000, 0x100), CellDev { val: 0, off: 0 })
        .unwrap();
    bus.insert(MmioRange::new(0x1f00, 0x100), CellDev { val: 0, off: 0 })
        .unwrap();
    bus.write(0x2008, 77, 4).unwrap();
    bus.write(0x1f08, 11, 4).unwrap();
    assert_eq!(bus.read(0x2008, 4), Ok(77));
    assert_eq!(bus.read(0x1f08, 4), Ok(11));
    assert_eq!(bus.read(0x1f09, 4), Err(MmioError::Device));
}

#[test]
fn each_overlap_and_missing_device_has_its_error() {
    let mut bus = MmioBus::new();
    bus.insert(MmioRange::new(0x1000, 0x1000), EchoDev).unwrap();
    let overlap = bus.insert(MmioRange::new(0x1fff, 1), EchoDev);
    assert!(matches!(overlap, Err(BusError::Overlap { .. })));
    assert_eq!(bus.read(0x2000, 4), Err(MmioError::Unmapped(0x2000)));
    assert_eq!(bus.write(0xfff, 1, 4), Err(MmioError::Unmapped(0xfff)));
}
