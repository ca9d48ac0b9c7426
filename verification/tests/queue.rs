use std::collections::HashMap;
use vmm_devices::virtio::queue::{flags, validate_chain, Descriptor, QueueError, MAX_CHAIN_LEN};

fn table(entries: &[(u64, u32, u16, u16)]) -> HashMap<u16, Descriptor> {
    entries
        .iter()
        .enumerate()
        .map(|(i, &(addr, len, flags, next))| {
            (
                i as u16,
                Descriptor {
                    addr,
                    len,
                    flags,
                    next,
                },
            )
        })
        .collect()
}

#[test]
fn simple_two_descriptor_chain_validates() {
    // Index 0: readable, NEXT to 1. Index 1: writable, no NEXT.
    let t = table(&[
        (0x1000, 0x10, flags::NEXT, 1),
        (0x2000, 0x10, flags::WRITE, 0),
    ]);
    let chain = validate_chain(0, |i| t.get(&i).copied()).unwrap();
    assert_eq!(chain, vec![0, 1]);
}

#[test]
fn loop_is_rejected() {
    // 0 to 1 to 0 (cycle).
    let t = table(&[
        (0x1000, 0x10, flags::NEXT | flags::WRITE, 1),
        (0x2000, 0x10, flags::NEXT | flags::WRITE, 0),
    ]);
    assert_eq!(
        validate_chain(0, |i| t.get(&i).copied()),
        Err(QueueError::Loop(0))
    );
}

#[test]
fn too_long_chain_is_rejected() {
    // A chain longer than MAX_CHAIN_LEN, each writable to avoid the NoWritable error.
    let mut t = HashMap::new();
    for i in 0..(MAX_CHAIN_LEN + 5) as u16 {
        t.insert(
            i,
            Descriptor {
                addr: 0x1000 + i as u64 * 0x10,
                len: 0x10,
                flags: flags::NEXT | flags::WRITE,
                next: i + 1,
            },
        );
    }
    assert!(matches!(
        validate_chain(0, |i| t.get(&i).copied()),
        Err(QueueError::ChainTooLong(_))
    ));
}

#[test]
fn chain_with_no_writable_buffer_rejected() {
    // Every descriptor readable-only.
    let t = table(&[
        (0x1000, 0x10, flags::NEXT, 1),
        (0x2000, 0x10, 0, 0), // no WRITE
    ]);
    assert_eq!(
        validate_chain(0, |i| t.get(&i).copied()),
        Err(QueueError::NoWritable(0))
    );
}

#[test]
fn single_writable_descriptor_chain_validates() {
    let t = table(&[(0x1000, 0x10, flags::WRITE, 0)]);
    let chain = validate_chain(0, |i| t.get(&i).copied()).unwrap();
    assert_eq!(chain, vec![0]);
}

/// A mini property test: random chains must either validate (no loop, length within MAX, has
/// writable) or return a specific error - never panic.
#[test]
fn random_chains_never_panic() {
    // Deterministic pseudo-random: LCG with a fixed seed.
    let mut state: u64 = 0xDEAD_BEEF_CAFE_BABE;
    let mut next = || {
        state = state
            .wrapping_mul(6364136223846793005)
            .wrapping_add(1442695040888963407);
        state
    };

    for _ in 0..1000 {
        let table_size = 1 + (next() % 8) as u16;
        let mut t = HashMap::new();
        for i in 0..table_size {
            let flags = if next() % 2 == 0 { flags::WRITE } else { 0 }
                | if next() % 3 == 0 { flags::NEXT } else { 0 };
            let next_idx = if flags & flags::NEXT != 0 {
                (next() % table_size as u64) as u16
            } else {
                0
            };
            t.insert(
                i,
                Descriptor {
                    addr: 0x1000 + i as u64 * 0x10,
                    len: 0x10,
                    flags,
                    next: next_idx,
                },
            );
        }
        let head = (next() % table_size as u64) as u16;
        // Must return Ok or Err, never panic.
        let _ = validate_chain(head, |i| t.get(&i).copied());
    }
}

/// A long-but-non-looping chain exactly at the limit must validate.
#[test]
fn chain_at_max_length_validates() {
    let mut t = HashMap::new();
    for i in 0..(MAX_CHAIN_LEN as u16) {
        t.insert(
            i,
            Descriptor {
                addr: 0x1000 + i as u64 * 0x10,
                len: 0x10,
                flags: if i < (MAX_CHAIN_LEN - 1) as u16 {
                    flags::NEXT | flags::WRITE
                } else {
                    flags::WRITE
                },
                next: i + 1,
            },
        );
    }
    let chain = validate_chain(0, |i| t.get(&i).copied()).unwrap();
    assert_eq!(chain.len(), MAX_CHAIN_LEN);
}

#[test]
fn a_missing_descriptor_is_reported() {
    let t = table(&[(0x1000, 0x10, flags::NEXT, 9)]);
    let r = validate_chain(0, |i| t.get(&i).copied());
    assert!(r.is_err());
    assert!(!matches!(r, Err(QueueError::Loop(_))));
}
