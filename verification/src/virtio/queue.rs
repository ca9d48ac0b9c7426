//! Validation of descriptor chains: malformed and looping chains are rejected.
use vstd::prelude::*;

pub mod flags;

verus! {

/// Max descriptors in a chain we'll follow (a conservative cap).
pub const MAX_CHAIN_LEN: usize = 32;

#[derive(Debug, Copy, Clone, PartialEq, Eq, Structural)]
pub enum QueueError {
    /// The chain is longer than a guest may make it.
    ChainTooLong(usize),
    /// The chain comes back to an index it has passed.
    Loop(u16),
    /// No buffer of the chain can be written by the device.
    NoWritable(u16),
    /// The queue holds no such descriptor.
    Empty,
}

/// A descriptor as the guest lays it out in the descriptor table (virtio v1.x, section 2.6.5).
#[derive(Debug, Default, Copy, Clone, PartialEq, Eq, Structural)]
pub struct Descriptor {
    pub addr: u64,
    pub len: u32,
    pub flags: u16,
    /// Index of the next descriptor in the chain, or 0 when `flags & NEXT == 0`.
    pub next: u16,
}

/// Following a chain from `idx` may end with `r`, after `visited` was passed; `writable` says
/// whether a writable descriptor was among them.
pub open spec fn chain_outcome<F: FnMut(u16) -> Option<Descriptor>>(
    read_desc: F,
    head: u16,
    visited: Seq<u16>,
    writable: bool,
    idx: u16,
    r: Result<Seq<u16>, QueueError>,
) -> bool
    decreases MAX_CHAIN_LEN - visited.len(),
{
    if visited.contains(idx) {
        r == Err::<Seq<u16>, QueueError>(QueueError::Loop(idx))
    } else if visited.len() >= MAX_CHAIN_LEN {
        r == Err::<Seq<u16>, QueueError>(QueueError::ChainTooLong(visited.len() as usize))
    } else {
        exists|d: Option<Descriptor>|
            #[trigger] call_ensures(read_desc, (idx,), d) && match d {
                None => r == Err::<Seq<u16>, QueueError>(QueueError::Empty),
                Some(desc) => {
                    let w = writable || desc.flags & flags::WRITE != 0;
                    if desc.flags & flags::NEXT != 0 {
                        chain_outcome(read_desc, head, visited.push(idx), w, desc.next, r)
                    } else if w {
                        r == Ok::<Seq<u16>, QueueError>(visited.push(idx))
                    } else {
                        r == Err::<Seq<u16>, QueueError>(QueueError::NoWritable(head))
                    }
                },
            }
    }
}

/// A chain that passes lists no index twice, and at most [`MAX_CHAIN_LEN`] of them.
pub proof fn law_valid_chain_is_short_and_simple<F: FnMut(u16) -> Option<Descriptor>>(
    read_desc: F,
    head: u16,
    visited: Seq<u16>,
    writable: bool,
    idx: u16,
    path: Seq<u16>,
)
    requires
        chain_outcome(
            read_desc,
            head,
            visited,
            writable,
            idx,
            Ok::<Seq<u16>, QueueError>(path),
        ),
        visited.no_duplicates(),
    ensures
        path.no_duplicates(),
        visited.len() < path.len() <= MAX_CHAIN_LEN,
        path.take(visited.len() as int) == visited,
        path[visited.len() as int] == idx,
    decreases MAX_CHAIN_LEN - visited.len(),
{
    let r = Ok::<Seq<u16>, QueueError>(path);
    let next = visited.push(idx);
    assert(next.no_duplicates());
    assert(next.take(visited.len() as int) =~= visited);
    let d = choose|d: Option<Descriptor>|
        #[trigger] call_ensures(read_desc, (idx,), d) && match d {
            None => r == Err::<Seq<u16>, QueueError>(QueueError::Empty),
            Some(desc) => {
                let w = writable || desc.flags & flags::WRITE != 0;
                if desc.flags & flags::NEXT != 0 {
                    chain_outcome(read_desc, head, visited.push(idx), w, desc.next, r)
                } else if w {
                    r == Ok::<Seq<u16>, QueueError>(visited.push(idx))
                } else {
                    r == Err::<Seq<u16>, QueueError>(QueueError::NoWritable(head))
                }
            },
        };
    let desc = d->0;
    let w = writable || desc.flags & flags::WRITE != 0;
    if desc.flags & flags::NEXT != 0 {
        law_valid_chain_is_short_and_simple(read_desc, head, next, w, desc.next, path);
        assert(path.take(visited.len() as int) =~= visited) by {
            assert forall|i: int| 0 <= i < visited.len() implies path[i] == visited[i] by {
                assert(path.take(next.len() as int)[i] == next[i]);
            }
        }
        assert(path.take(next.len() as int)[visited.len() as int] == idx);
    }
}

/// `read_desc` gives descriptor `idx` as one that the device may write.
pub open spec fn reads_writable<F: FnMut(u16) -> Option<Descriptor>>(
    read_desc: F,
    idx: u16,
) -> bool {
    exists|desc: Descriptor|
        #[trigger] call_ensures(read_desc, (idx,), Some(desc)) && desc.flags & flags::WRITE != 0
}

/// A chain that passes holds a descriptor that the device may write.
pub proof fn law_valid_chain_is_writable<F: FnMut(u16) -> Option<Descriptor>>(
    read_desc: F,
    head: u16,
    path: Seq<u16>,
)
    requires
        chain_outcome(
            read_desc,
            head,
            Seq::empty(),
            false,
            head,
            Ok::<Seq<u16>, QueueError>(path),
        ),
    ensures
        exists|i: int| 0 <= i < path.len() && reads_writable(read_desc, #[trigger] path[i]),
{
    lemma_chain_is_writable(read_desc, head, Seq::empty(), false, head, path);
}

proof fn lemma_chain_is_writable<F: FnMut(u16) -> Option<Descriptor>>(
    read_desc: F,
    head: u16,
    visited: Seq<u16>,
    writable: bool,
    idx: u16,
    path: Seq<u16>,
)
    requires
        chain_outcome(
            read_desc,
            head,
            visited,
            writable,
            idx,
            Ok::<Seq<u16>, QueueError>(path),
        ),
        writable ==> exists|i: int|
            0 <= i < visited.len() && reads_writable(read_desc, #[trigger] visited[i]),
    ensures
        exists|i: int| 0 <= i < path.len() && reads_writable(read_desc, #[trigger] path[i]),
    decreases MAX_CHAIN_LEN - visited.len(),
{
    let r = Ok::<Seq<u16>, QueueError>(path);
    let next = visited.push(idx);
    let d = choose|d: Option<Descriptor>|
        #[trigger] call_ensures(read_desc, (idx,), d) && match d {
            None => r == Err::<Seq<u16>, QueueError>(QueueError::Empty),
            Some(desc) => {
                let w = writable || desc.flags & flags::WRITE != 0;
                if desc.flags & flags::NEXT != 0 {
                    chain_outcome(read_desc, head, visited.push(idx), w, desc.next, r)
                } else if w {
                    r == Ok::<Seq<u16>, QueueError>(visited.push(idx))
                } else {
                    r == Err::<Seq<u16>, QueueError>(QueueError::NoWritable(head))
                }
            },
        };
    let desc = d->0;
    let w = writable || desc.flags & flags::WRITE != 0;
    if w {
        if writable {
            let i = choose|i: int|
                0 <= i < visited.len() && reads_writable(read_desc, #[trigger] visited[i]);
            assert(next[i] == visited[i]);
        } else {
            assert(call_ensures(read_desc, (idx,), Some(desc)));
            assert(reads_writable(read_desc, next[visited.len() as int]));
        }
    }
    if desc.flags & flags::NEXT != 0 {
        lemma_chain_is_writable(read_desc, head, next, w, desc.next, path);
    }
}

/// Follow a chain starting at `head`, calling `read_desc(idx)` for each entry, and return the
/// list of visited indices in order.
///
/// Validates:
///   - chain length at most [`MAX_CHAIN_LEN`]
///   - no loops (no index visited twice)
///   - the chain has at least one writable descriptor
#[verifier::loop_isolation(false)]
pub fn validate_chain<F>(head: u16, read_desc: F) -> (r: Result<Vec<u16>, QueueError>) where
    F: FnMut(u16) -> Option<Descriptor>,

    requires
        forall|i: u16| call_requires(read_desc, (i,)),
    ensures
        chain_outcome(
            read_desc,
            head,
            Seq::empty(),
            false,
            head,
            match r {
                Ok(v) => Ok::<Seq<u16>, QueueError>(v@),
                Err(e) => Err(e),
            },
        ),
{
    let ghost f = read_desc;
    let mut read_desc = read_desc;
    let mut visited: Vec<u16> = Vec::new();
    let mut has_writable = false;
    let mut idx: u16 = head;
    loop
        invariant
            f == read_desc,
            forall|i: u16| call_requires(read_desc, (i,)),
            visited@.len() <= MAX_CHAIN_LEN,
            forall|r: Result<Seq<u16>, QueueError>|
                #[trigger] chain_outcome(f, head, visited@, has_writable, idx, r)
                    ==> chain_outcome(f, head, Seq::empty(), false, head, r),
        decreases MAX_CHAIN_LEN - visited@.len(),
    {
        let ghost before = visited@;
        let ghost was_writable = has_writable;
        let ghost at = idx;
        if contains(&visited, idx) {
            assert(chain_outcome(f, head, before, was_writable, at, Err(QueueError::Loop(idx))));
            return Err(QueueError::Loop(idx));
        }
        if visited.len() >= MAX_CHAIN_LEN {
            assert(chain_outcome(
                f,
                head,
                before,
                was_writable,
                at,
                Err(QueueError::ChainTooLong(visited.len())),
            ));
            return Err(QueueError::ChainTooLong(visited.len()));
        }
        let d = read_desc(idx);
        assert(call_ensures(f, (at,), d));
        let desc = match d {
            Some(desc) => desc,
            None => {
                assert(chain_outcome(f, head, before, was_writable, at, Err(QueueError::Empty)));
                return Err(QueueError::Empty);
            },
        };
        if desc.flags & flags::WRITE != 0 {
            has_writable = true;
        }
        visited.push(idx);

        if desc.flags & flags::NEXT == 0 {
            if !has_writable {
                assert(chain_outcome(
                    f,
                    head,
                    before,
                    was_writable,
                    at,
                    Err(QueueError::NoWritable(head)),
                ));
                return Err(QueueError::NoWritable(head));
            }
            assert(chain_outcome(f, head, before, was_writable, at, Ok(visited@)));
            return Ok(visited);
        }
        idx = desc.next;
        proof {
            assert forall|r: Result<Seq<u16>, QueueError>|
                #[trigger] chain_outcome(f, head, visited@, has_writable, idx, r) implies
                chain_outcome(f, head, Seq::empty(), false, head, r) by {
                assert(chain_outcome(f, head, before, was_writable, at, r));
            }
        }
    }
}

/// Whether `v` holds `x`.
fn contains(v: &Vec<u16>, x: u16) -> (r: bool)
    ensures
        r == v@.contains(x),
{
    let mut i: usize = 0;
    while i < v.len()
        invariant
            i <= v@.len(),
            forall|j: int| 0 <= j < i ==> v@[j] != x,
        decreases v@.len() - i,
    {
        if v[i] == x {
            return true;
        }
        i += 1;
    }
    false
}

/// The descriptors that were read one after the other along a chain, from `idx` on: each but the
/// last is flagged to go on and names the next.
pub open spec fn read_along<F: FnMut(u16) -> Option<Descriptor>>(
    read_desc: F,
    idx: u16,
    path: Seq<u16>,
    descs: Seq<Descriptor>,
) -> bool {
    &&& descs.len() == path.len()
    &&& path.len() > 0 ==> path[0] == idx
    &&& forall|i: int|
        0 <= i < path.len() ==> call_ensures(read_desc, (#[trigger] path[i],), Some(descs[i]))
    &&& forall|i: int|
        0 <= i < path.len() - 1 ==> (#[trigger] descs[i]).flags & 1 != 0 && descs[i].next == path[i
            + 1]
}

/// Where a chain goes on behind the descriptors that were read.
pub open spec fn goes_on_at(idx: u16, descs: Seq<Descriptor>) -> u16 {
    if descs.len() == 0 {
        idx
    } else {
        descs.last().next
    }
}

/// One of the descriptors has a buffer that the device may write.
pub open spec fn any_writable(descs: Seq<Descriptor>) -> bool {
    exists|i: int| 0 <= i < descs.len() && (#[trigger] descs[i]).flags & 2 != 0
}

/// How following a chain ended, after the descriptors of `path` were read behind those of
/// `visited`. It passes where the last is not flagged to go on and one of them is writable. It is
/// refused where it comes to an index that it has passed, to more than 32 of them, to one that
/// there is not, or to its end with nothing that could be written.
pub open spec fn followed_to<F: FnMut(u16) -> Option<Descriptor>>(
    read_desc: F,
    head: u16,
    visited: Seq<u16>,
    writable: bool,
    idx: u16,
    path: Seq<u16>,
    descs: Seq<Descriptor>,
    r: Result<Seq<u16>, QueueError>,
) -> bool {
    let passed = visited + path;
    let next = goes_on_at(idx, descs);
    let more = descs.len() == 0 || descs.last().flags & 1 != 0;
    &&& read_along(read_desc, idx, path, descs)
    &&& passed.len() <= 32 || path.len() == 0
    &&& match r {
        Ok(p) => p == passed && !more && (writable || any_writable(descs)),
        Err(QueueError::Loop(i)) => more && i == next && passed.contains(next),
        Err(QueueError::ChainTooLong(n)) => more && n == passed.len() && n >= 32
            && !passed.contains(next),
        Err(QueueError::Empty) => more && !passed.contains(next) && call_ensures(
            read_desc,
            (next,),
            None,
        ),
        Err(QueueError::NoWritable(h)) => h == head && !more && !writable && !any_writable(descs),
    }
}

/// A chain is followed descriptor by descriptor, and what comes out is what the descriptors say.
pub proof fn law_chain_is_followed<F: FnMut(u16) -> Option<Descriptor>>(
    read_desc: F,
    head: u16,
    visited: Seq<u16>,
    writable: bool,
    idx: u16,
    r: Result<Seq<u16>, QueueError>,
) -> (walk: (Seq<u16>, Seq<Descriptor>))
    requires
        chain_outcome(read_desc, head, visited, writable, idx, r),
        visited.len() <= 0xffff,
    ensures
        followed_to(read_desc, head, visited, writable, idx, walk.0, walk.1, r),
    decreases MAX_CHAIN_LEN - visited.len(),
{
    let none = (Seq::<u16>::empty(), Seq::<Descriptor>::empty());
    assert(visited + none.0 =~= visited);
    if visited.contains(idx) || visited.len() >= MAX_CHAIN_LEN {
        none
    } else {
        let d = choose|d: Option<Descriptor>|
            #[trigger] call_ensures(read_desc, (idx,), d) && match d {
                None => r == Err::<Seq<u16>, QueueError>(QueueError::Empty),
                Some(desc) => {
                    let w = writable || desc.flags & flags::WRITE != 0;
                    if desc.flags & flags::NEXT != 0 {
                        chain_outcome(read_desc, head, visited.push(idx), w, desc.next, r)
                    } else if w {
                        r == Ok::<Seq<u16>, QueueError>(visited.push(idx))
                    } else {
                        r == Err::<Seq<u16>, QueueError>(QueueError::NoWritable(head))
                    }
                },
            };
        match d {
            None => none,
            Some(desc) => {
                let w = writable || desc.flags & flags::WRITE != 0;
                let next = visited.push(idx);
                if desc.flags & flags::NEXT != 0 {
                    let (path0, descs0) = law_chain_is_followed(
                        read_desc,
                        head,
                        next,
                        w,
                        desc.next,
                        r,
                    );
                    let path = seq![idx] + path0;
                    let descs = seq![desc] + descs0;
                    lemma_one_behind(read_desc, idx, desc, path0, descs0);
                    assert(visited + path =~= next + path0);
                    if path0.len() > 0 {
                        assert(descs.last() == descs0.last());
                    }
                    (path, descs)
                } else {
                    let path = seq![idx];
                    let descs = seq![desc];
                    assert(visited + path =~= next);
                    assert(descs[0] == desc);
                    (path, descs)
                }
            },
        }
    }
}

proof fn lemma_one_behind<F: FnMut(u16) -> Option<Descriptor>>(
    read_desc: F,
    idx: u16,
    desc: Descriptor,
    path0: Seq<u16>,
    descs0: Seq<Descriptor>,
)
    requires
        call_ensures(read_desc, (idx,), Some(desc)),
        desc.flags & 1 != 0,
        read_along(read_desc, desc.next, path0, descs0),
    ensures
        read_along(read_desc, idx, seq![idx] + path0, seq![desc] + descs0),
        any_writable(seq![desc] + descs0) <==> desc.flags & 2 != 0 || any_writable(descs0),
{
    let path = seq![idx] + path0;
    let descs = seq![desc] + descs0;
    assert forall|i: int| 0 <= i < path.len() implies call_ensures(
        read_desc,
        (#[trigger] path[i],),
        Some(descs[i]),
    ) by {
        if i > 0 {
            assert(path[i] == path0[i - 1]);
            assert(descs[i] == descs0[i - 1]);
        }
    }
    assert forall|i: int| 0 <= i < path.len() - 1 implies (#[trigger] descs[i]).flags & 1 != 0
        && descs[i].next == path[i + 1] by {
        assert(path[i + 1] == path0[i]);
        if i > 0 {
            assert(descs[i] == descs0[i - 1]);
        }
    }
    if desc.flags & 2 != 0 {
        assert(descs[0] == desc);
    }
    if any_writable(descs0) {
        let i = choose|i: int| 0 <= i < descs0.len() && (#[trigger] descs0[i]).flags & 2 != 0;
        assert(descs[i + 1] == descs0[i]);
    }
    if any_writable(descs) {
        let i = choose|i: int| 0 <= i < descs.len() && (#[trigger] descs[i]).flags & 2 != 0;
        if i > 0 {
            assert(descs[i] == descs0[i - 1]);
        }
    }
}

} // verus!
