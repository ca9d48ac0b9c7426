use vm_memory::{Bytes, GuestAddress, GuestMemoryMmap};
use vmm_devices::dirty::SoftwareDirtyBitmap;
use vmm_devices::virtio::vqueue::{
    desc_flags, is_valid_queue_size, AvailRing, Descriptor, QueueConfig, UsedElem, UsedRing,
    VirtQueueProcessor, VirtQueueProcessorState, MAX_DESC_LEN,
};

fn put_desc(mem: &GuestMemoryMmap, desc: Descriptor, addr: u64) {
    mem.write_slice(&desc.to_bytes(), GuestAddress(addr)).unwrap();
}

/// Sets up a 1 MiB guest memory region with a valid avail ring pointing at a descriptor table.
/// Returns (mem, desc_table_addr, avail_addr, used_addr).
fn setup_queue_env() -> (GuestMemoryMmap, u64, u64, u64) {
    let mem_size = 1024 * 1024;
    let mem = GuestMemoryMmap::from_ranges(&[(GuestAddress(0), mem_size)]).unwrap();
    let desc_table_addr: u64 = 0x10000;
    let avail_ring_addr: u64 = 0x20000;
    let used_ring_addr: u64 = 0x30000;

    // Avail ring header: flags=0, idx=1 (one entry available).
    let avail = AvailRing { flags: 0, idx: 1 };
    mem.write_slice(&avail.to_bytes(), GuestAddress(avail_ring_addr))
        .unwrap();
    // Avail ring entry [0] = descriptor index 0.
    mem.write_slice(&0u16.to_le_bytes(), GuestAddress(avail_ring_addr + 4))
        .unwrap();

    (mem, desc_table_addr, avail_ring_addr, used_ring_addr)
}

fn processor(size: u16, desc_table: u64, avail: u64, used: u64) -> VirtQueueProcessor {
    VirtQueueProcessor::new(QueueConfig {
        size,
        desc_table_addr: desc_table,
        avail_ring_addr: avail,
        used_ring_addr: used,
        ready: true,
    })
}

#[test]
fn queue_config_default() {
    let c = QueueConfig::default();
    assert!(!c.ready);
    assert_eq!(c.size, 0);
}

#[test]
fn processor_starts_with_zero_indices() {
    let p = processor(64, 0x100000, 0x200000, 0x300000);
    assert_eq!(p.last_avail_idx, 0);
    assert_eq!(p.last_used_idx, 0);
}

#[test]
fn process_queue_returns_zero_when_not_ready() {
    let mut mem = GuestMemoryMmap::from_ranges(&[(GuestAddress(0), 1024 * 1024)]).unwrap();
    let mut p = VirtQueueProcessor::new(QueueConfig::default());
    let count = p.process_queue(&mut mem, |_, w| (w, 0));
    assert_eq!(count, 0);
}

#[test]
fn invalid_queue_size_is_rejected_before_use() {
    let (mut mem, desc_table, avail, used) = setup_queue_env();
    let desc = Descriptor {
        addr: 0x1000,
        len: 1,
        flags: 0,
        next: 0,
    };
    put_desc(&mem, desc, desc_table);

    let mut p = processor(3, desc_table, avail, used);

    let count = p.process_queue(&mut mem, |_, _| {
        panic!("non-power-of-two queue size must be rejected");
    });
    assert_eq!(count, 0);
    assert_eq!(p.avail_idx(), 0);
    assert_eq!(p.used_idx(), 0);
}

#[test]
fn used_idx_tracks_processed() {
    let p = processor(64, 0, 0, 0);
    assert_eq!(p.used_idx(), 0);
}

#[test]
fn process_queue_dirty_marks_host_written_pages() {
    let (mut mem, desc_table, avail, used) = setup_queue_env();
    let data_addr = 0x0ff0;
    let status_addr = 0x4000;
    let desc0 = Descriptor {
        addr: data_addr,
        len: 32,
        flags: desc_flags::WRITE | desc_flags::NEXT,
        next: 1,
    };
    let desc1 = Descriptor {
        addr: status_addr,
        len: 1,
        flags: desc_flags::WRITE,
        next: 0,
    };
    put_desc(&mem, desc0, desc_table);
    put_desc(&mem, desc1, desc_table + 16);

    let mut dirty = SoftwareDirtyBitmap::new();
    let mut p = processor(8, desc_table, avail, used);
    let count = p.process_queue_dirty(&mut mem, Some(&mut dirty), |_readable, writable| {
        let mut writable = writable;
        writable.fill(0x5a);
        (writable, 0)
    });

    assert_eq!(count, 1);
    let dirty = dirty.drain();
    assert!(dirty.contains(data_addr));
    assert!(dirty.contains(data_addr + 31));
    assert!(dirty.contains(status_addr));
    assert!(dirty.contains(used + 4));
    assert!(dirty.contains(used + 2));

    let mut data = [0u8; 32];
    mem.read_slice(&mut data, GuestAddress(data_addr)).unwrap();
    assert_eq!(data, [0x5a; 32]);
}

#[test]
fn oob_desc_addr_is_rejected() {
    let (mut mem, desc_table, avail, used) = setup_queue_env();

    // addr = 0xDEAD_BEEF (way past the 1 MiB region), len=512, WRITE flag.
    let desc = Descriptor {
        addr: 0xDEAD_BEEF,
        len: 512,
        flags: desc_flags::WRITE,
        next: 0,
    };
    put_desc(&mem, desc, desc_table);

    let mut p = processor(8, desc_table, avail, used);

    let count = p.process_queue(&mut mem, |_readable, _writable| {
        panic!("malformed descriptor must be rejected before handler");
    });
    assert_eq!(count, 0);
    assert_eq!(p.avail_idx(), 1);
    assert_eq!(p.used_idx(), 0);
}

#[test]
fn oversized_desc_len_is_rejected() {
    let (mut mem, desc_table, avail, used) = setup_queue_env();

    let desc = Descriptor {
        addr: 0x1000,
        len: MAX_DESC_LEN + 1, // just over the cap
        flags: 0,              // readable
        next: 0,
    };
    put_desc(&mem, desc, desc_table);

    let mut p = processor(8, desc_table, avail, used);

    let count = p.process_queue(&mut mem, |_, _| {
        panic!("oversized descriptor must be rejected before handler");
    });
    assert_eq!(count, 0);
    assert_eq!(p.avail_idx(), 1);
    assert_eq!(p.used_idx(), 0);
}

#[test]
fn desc_idx_out_of_bounds_is_rejected() {
    let (mut mem, desc_table, avail, used) = setup_queue_env();

    // First descriptor: NEXT flag, next = 0xFFFF (way past size=8).
    let desc0 = Descriptor {
        addr: 0x1000,
        len: 64,
        flags: desc_flags::NEXT,
        next: 0xFFFF,
    };
    put_desc(&mem, desc0, desc_table);

    let mut p = processor(8, desc_table, avail, used);

    let count = p.process_queue(&mut mem, |_, _| {
        panic!("out-of-range next descriptor must be rejected");
    });
    assert_eq!(count, 0);
    assert_eq!(p.avail_idx(), 1);
    assert_eq!(p.used_idx(), 0);
}

#[test]
fn descriptor_loop_is_rejected() {
    let (mut mem, desc_table, avail, used) = setup_queue_env();

    let desc0 = Descriptor {
        addr: 0x1000,
        len: 1,
        flags: desc_flags::NEXT,
        next: 1,
    };
    let desc1 = Descriptor {
        addr: 0x1001,
        len: 1,
        flags: desc_flags::NEXT,
        next: 0,
    };
    put_desc(&mem, desc0, desc_table);
    put_desc(&mem, desc1, desc_table + 16);

    let mut p = processor(8, desc_table, avail, used);

    let count = p.process_queue(&mut mem, |_, _| {
        panic!("looping descriptor chain must be rejected");
    });
    assert_eq!(count, 0);
    assert_eq!(p.avail_idx(), 1);
    assert_eq!(p.used_idx(), 0);
}

#[test]
fn descriptor_address_overflow_is_rejected() {
    let (mut mem, desc_table, avail, used) = setup_queue_env();

    let desc = Descriptor {
        addr: u64::MAX,
        len: 2,
        flags: 0,
        next: 0,
    };
    put_desc(&mem, desc, desc_table);

    let mut p = processor(8, desc_table, avail, used);

    let count = p.process_queue(&mut mem, |_, _| {
        panic!("overflowing descriptor address must be rejected");
    });
    assert_eq!(count, 0);
    assert_eq!(p.avail_idx(), 1);
    assert_eq!(p.used_idx(), 0);
}

#[test]
fn descriptor_api_rejects_loop_before_handler() {
    let (mut mem, desc_table, avail, used) = setup_queue_env();
    let desc = Descriptor {
        addr: 0x1000,
        len: 1,
        flags: desc_flags::NEXT | desc_flags::WRITE,
        next: 0,
    };
    put_desc(&mem, desc, desc_table);

    let mut p = processor(8, desc_table, avail, used);

    let count = p.process_queue_descriptors(&mut mem, |_, _| {
        panic!("looping descriptor chain must be rejected before handler");
    });
    assert_eq!(count, 0);
    assert_eq!(p.avail_idx(), 1);
    assert_eq!(p.used_idx(), 0);
}

#[test]
fn valid_descriptor_chain_succeeds() {
    let (mut mem, desc_table, avail, used) = setup_queue_env();

    // "HELLO" at 0x1000 for the readable descriptor.
    let data = b"HELLO";
    mem.write_slice(data, GuestAddress(0x1000)).unwrap();

    // Descriptor: addr=0x1000, len=5, readable (no flags).
    let desc = Descriptor {
        addr: 0x1000,
        len: 5,
        flags: 0,
        next: 0,
    };
    put_desc(&mem, desc, desc_table);

    let mut p = processor(8, desc_table, avail, used);

    let count = p.process_queue(&mut mem, |readable, w| {
        assert_eq!(readable, b"HELLO");
        (w, 0)
    });
    assert_eq!(count, 1);
}

#[test]
fn chain_total_bytes_cap_enforced() {
    let (mut mem, desc_table, avail, used) = setup_queue_env();

    // Chain of 5 descriptors, each MAX_DESC_LEN (1 MiB) = 5 MiB total > 4 MiB cap.
    for i in 0..5u16 {
        let desc = Descriptor {
            addr: 0x1000,
            len: MAX_DESC_LEN,
            flags: if i < 4 { desc_flags::NEXT } else { 0 },
            next: if i < 4 { i + 1 } else { 0 },
        };
        put_desc(&mem, desc, desc_table + i as u64 * 16);
    }

    let mut p = processor(8, desc_table, avail, used);

    let count = p.process_queue(&mut mem, |_, _| {
        panic!("over-large descriptor chain must be rejected before handler");
    });
    assert_eq!(count, 0);
    assert_eq!(p.avail_idx(), 1);
    assert_eq!(p.used_idx(), 0);
}

#[test]
fn oob_write_to_guest_is_rejected() {
    let (mut mem, desc_table, avail, used) = setup_queue_env();

    // Writable descriptor with OOB addr.
    let desc = Descriptor {
        addr: 0xF000_0000, // way past 1 MiB
        len: 512,
        flags: desc_flags::WRITE,
        next: 0,
    };
    put_desc(&mem, desc, desc_table);

    let mut p = processor(8, desc_table, avail, used);

    // Should not crash or invoke the handler.
    let count = p.process_queue(&mut mem, |_, _| {
        panic!("OOB writable descriptor must be rejected before handler");
    });
    assert_eq!(count, 0);
    assert_eq!(p.avail_idx(), 1);
    assert_eq!(p.used_idx(), 0);
}

#[test]
fn property_test_random_chains_never_panic() {
    // The walker must never panic or access OOB, regardless of input.
    let (mut mem, desc_table, avail, used) = setup_queue_env();

    // Simple LCG for reproducible randomness.
    let mut state: u32 = 12345;
    let lcg = |s: &mut u32| -> u32 {
        *s = s.wrapping_mul(1103515245).wrapping_add(12345);
        *s
    };

    for _iter in 0..1000 {
        // Reset avail ring to point at one new descriptor chain.
        let avail_hdr = AvailRing { flags: 0, idx: 1 };
        mem.write_slice(&avail_hdr.to_bytes(), GuestAddress(avail))
            .unwrap();
        mem.write_slice(&0u16.to_le_bytes(), GuestAddress(avail + 4))
            .unwrap(); // entry[0] = desc 0

        // Write a random chain of descriptors starting at index 0.
        let chain_len = (lcg(&mut state) % 8) as u16;
        for i in 0..chain_len {
            let addr = (lcg(&mut state) % 0x200000) as u64; // some in-range, some OOB
            let len = lcg(&mut state) % (MAX_DESC_LEN + 100); // some over the cap
            let has_next = i < chain_len - 1;
            let next = if has_next { i + 1 } else { 0 };
            let flags = if has_next { desc_flags::NEXT } else { 0 };
            let desc = Descriptor {
                addr,
                len,
                flags,
                next,
            };
            put_desc(&mem, desc, desc_table + i as u64 * 16);
        }

        let mut p = processor(8, desc_table, avail, used);

        // Must not panic.
        let _ = p.process_queue(&mut mem, |_, w| (w, 0));
    }
}

#[test]
fn queue_sizes_are_powers_of_two_within_the_cap() {
    assert!(is_valid_queue_size(1, 256));
    assert!(is_valid_queue_size(256, 256));
    assert!(!is_valid_queue_size(0, 256));
    assert!(!is_valid_queue_size(512, 256));
    assert!(!is_valid_queue_size(24, 256));
}

#[test]
fn descriptors_and_ring_entries_round_trip() {
    let d = Descriptor {
        addr: 0x1122_3344_5566_7788,
        len: 0x99aa_bbcc,
        flags: 0x0102,
        next: 0x0304,
    };
    let b = d.to_bytes();
    assert_eq!(b[0], 0x88);
    assert_eq!(b[12], 0x02);
    assert_eq!(Descriptor::from_bytes(&b), d);
    let e = UsedElem { id: 7, len: 0x1234 };
    assert_eq!(e.to_bytes(), vec![7, 0, 0, 0, 0x34, 0x12, 0, 0]);
    assert_eq!(UsedElem::from_bytes(&e.to_bytes()), e);
    assert_eq!(
        AvailRing::from_bytes(&[1, 0, 2, 1]),
        AvailRing {
            flags: 1,
            idx: 0x102
        }
    );
}

#[test]
fn handler_bytes_status_and_used_entry_reach_the_guest() {
    let (mut mem, desc_table, avail, used) = setup_queue_env();
    put_desc(
        &mem,
        Descriptor {
            addr: 0x1000,
            len: 4,
            flags: desc_flags::NEXT,
            next: 1,
        },
        desc_table,
    );
    put_desc(
        &mem,
        Descriptor {
            addr: 0x2000,
            len: 6,
            flags: desc_flags::WRITE | desc_flags::NEXT,
            next: 2,
        },
        desc_table + 16,
    );
    put_desc(
        &mem,
        Descriptor {
            addr: 0x3000,
            len: 1,
            flags: desc_flags::WRITE,
            next: 0,
        },
        desc_table + 32,
    );
    mem.write_slice(b"ping", GuestAddress(0x1000)).unwrap();
    let mut p = processor(8, desc_table, avail, used);
    let count = p.process_queue(&mut mem, |readable, writable| {
        assert_eq!(readable, b"ping");
        assert_eq!(writable.len(), 6);
        (b"answer".to_vec(), 9)
    });
    assert_eq!(count, 1);
    let mut data = [0u8; 6];
    mem.read_slice(&mut data, GuestAddress(0x2000)).unwrap();
    assert_eq!(&data, b"answer");
    let mut status = [0u8; 1];
    mem.read_slice(&mut status, GuestAddress(0x3000)).unwrap();
    assert_eq!(status, [9]);
    let mut header = [0u8; 4];
    mem.read_slice(&mut header, GuestAddress(used)).unwrap();
    assert_eq!(UsedRing::from_bytes(&header), UsedRing { flags: 0, idx: 1 });
    let mut entry = [0u8; 8];
    mem.read_slice(&mut entry, GuestAddress(used + 4)).unwrap();
    assert_eq!(UsedElem::from_bytes(&entry).id, 0);
}

#[test]
fn a_handler_without_an_answer_leaves_the_chain_available() {
    let (mut mem, desc_table, avail, used) = setup_queue_env();
    put_desc(
        &mem,
        Descriptor {
            addr: 0x2000,
            len: 16,
            flags: desc_flags::WRITE,
            next: 0,
        },
        desc_table,
    );
    let mut p = processor(8, desc_table, avail, used);
    assert_eq!(p.process_queue_descriptors(&mut mem, |_, _| None), 0);
    assert_eq!(p.avail_idx(), 0);
    assert_eq!(p.used_idx(), 0);
    let count = p.process_queue_descriptors(&mut mem, |readable, writable| {
        assert!(readable.is_empty());
        assert_eq!(writable, &[(0x2000, 16)]);
        Some(5)
    });
    assert_eq!(count, 1);
    assert_eq!((p.avail_idx(), p.used_idx()), (1, 1));
    let mut entry = [0u8; 8];
    mem.read_slice(&mut entry, GuestAddress(used + 4)).unwrap();
    assert_eq!(UsedElem::from_bytes(&entry), UsedElem { id: 0, len: 5 });
}

#[test]
fn saved_positions_are_taken_up_again() {
    let config = QueueConfig {
        size: 8,
        desc_table_addr: 1,
        avail_ring_addr: 2,
        used_ring_addr: 3,
        ready: true,
    };
    let p = VirtQueueProcessor::new_with_indices(config, 5, 4);
    assert_eq!(
        p.save_state(),
        VirtQueueProcessorState {
            last_avail_idx: 5,
            last_used_idx: 4
        }
    );
    let mut q = VirtQueueProcessor::from_state(config, p.save_state());
    q.update_config(QueueConfig { size: 16, ..config });
    assert_eq!((q.avail_idx(), q.used_idx(), q.config.size), (5, 4, 16));
}

#[test]
fn exposing_buffers_marks_only_the_used_ring() {
    let (mut mem, desc_table, avail, used) = setup_queue_env();
    put_desc(
        &mem,
        Descriptor {
            addr: 0x6000,
            len: 16,
            flags: desc_flags::WRITE,
            next: 0,
        },
        desc_table,
    );
    let mut dirty = SoftwareDirtyBitmap::new();
    let mut p = processor(8, desc_table, avail, used);
    let count = p.process_queue_descriptors_dirty(&mut mem, Some(&mut dirty), |_, _| Some(16));
    assert_eq!(count, 1);
    let dirty = dirty.drain();
    assert!(dirty.contains(used + 2));
    assert!(dirty.contains(used + 4));
    assert!(!dirty.contains(0x6000));

    let mut untracked = processor(8, desc_table, avail, used);
    let count = untracked.process_queue_descriptors_dirty(&mut mem, None, |_, _| Some(3));
    assert_eq!(count, 1);
    let mut entry = [0u8; 8];
    mem.read_slice(&mut entry, GuestAddress(used + 4)).unwrap();
    assert_eq!(UsedElem::from_bytes(&entry), UsedElem { id: 0, len: 3 });
}

fn put_buffers(mem: &GuestMemoryMmap, desc_table: u64, avail: u64, count: u16) {
    for i in 0..count {
        let d = Descriptor {
            addr: 0x5000 + 0x100 * i as u64,
            len: 16,
            flags: desc_flags::WRITE,
            next: 0,
        };
        put_desc(mem, d, desc_table + 16 * i as u64);
        mem.write_slice(&i.to_le_bytes(), GuestAddress(avail + 4 + 2 * i as u64))
            .unwrap();
    }
    let ring = AvailRing {
        flags: 0,
        idx: count,
    };
    mem.write_slice(&ring.to_bytes(), GuestAddress(avail)).unwrap();
}

#[test]
fn a_chain_without_an_answer_comes_first_next_time() {
    let (mut mem, desc_table, avail, used) = setup_queue_env();
    put_buffers(&mem, desc_table, avail, 3);
    let mut p = processor(8, desc_table, avail, used);

    let mut seen: Vec<u64> = Vec::new();
    let count = p.process_queue_descriptors(&mut mem, |_, writable| {
        seen.push(writable[0].0);
        if seen.len() == 1 {
            Some(7)
        } else {
            None
        }
    });
    assert_eq!(count, 1);
    assert_eq!(seen, vec![0x5000, 0x5100]);
    assert_eq!((p.avail_idx(), p.used_idx()), (1, 1));
    let mut entries = [0u8; 16];
    mem.read_slice(&mut entries, GuestAddress(used + 4)).unwrap();
    assert_eq!(
        UsedElem::from_bytes(&entries[..8]),
        UsedElem { id: 0, len: 7 }
    );
    assert_eq!(entries[8..], [0u8; 8]);

    let mut seen: Vec<u64> = Vec::new();
    let count = p.process_queue_descriptors(&mut mem, |_, writable| {
        seen.push(writable[0].0);
        Some(1)
    });
    assert_eq!(count, 2);
    assert_eq!(seen, vec![0x5100, 0x5200]);
    assert_eq!((p.avail_idx(), p.used_idx()), (3, 3));
}

#[test]
fn a_pass_over_requests_leaves_the_used_flags_and_the_rest_of_memory() {
    let (mut mem, desc_table, avail, used) = setup_queue_env();
    put_buffers(&mem, desc_table, avail, 2);
    mem.write_slice(&[0x34, 0x12], GuestAddress(used)).unwrap();
    mem.write_slice(&[0xee; 8], GuestAddress(0x5010)).unwrap();
    let mut table = [0u8; 32];
    mem.read_slice(&mut table, GuestAddress(desc_table)).unwrap();

    let mut p = processor(8, desc_table, avail, used);
    assert_eq!(p.process_queue(&mut mem, |_, w| (w, 5)), 2);
    assert_eq!((p.avail_idx(), p.used_idx()), (2, 2));
    let mut header = [0u8; 4];
    mem.read_slice(&mut header, GuestAddress(used)).unwrap();
    assert_eq!(
        UsedRing::from_bytes(&header),
        UsedRing {
            flags: 0x1234,
            idx: 2
        }
    );
    let mut beside = [0u8; 8];
    mem.read_slice(&mut beside, GuestAddress(0x5010)).unwrap();
    assert_eq!(beside, [0xee; 8]);
    let mut table_after = [0u8; 32];
    mem.read_slice(&mut table_after, GuestAddress(desc_table))
        .unwrap();
    assert_eq!(table_after, table);
}
