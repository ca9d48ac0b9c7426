//! The open files of a block backend, and the record of what is done to them.
//!
//! A [`Disk`] reaches its files through one function, which performs one operation and answers
//! with the bytes read, with no bytes for an operation that reads none, or with nothing on
//! failure. Nothing else calls that function, so the record of a disk holds every operation in
//! its order.
use vstd::prelude::*;

verus! {

/// The files that a backend works on.
#[derive(Debug, Copy, Clone, PartialEq, Eq, Structural)]
pub enum DiskFile {
    /// The disk image of a backend without overlay.
    Image,
    /// The read-only base image.
    Base,
    /// The copy-on-write overlay.
    Overlay,
}

/// One operation on an open file.
#[derive(Debug)]
pub enum DiskOp {
    /// Read exactly `len` bytes.
    Read { file: DiskFile, offset: u64, len: usize },
    /// Write all of `data`.
    Write { file: DiskFile, offset: u64, data: Vec<u8> },
    /// Set the file's length.
    SetLen { file: DiskFile, size: u64 },
    /// Bring the file's data to stable storage.
    SyncData { file: DiskFile },
    /// Bring the file's data and metadata to stable storage.
    SyncAll { file: DiskFile },
}

/// What a [`DiskOp`] asks for.
pub enum DiskOpView {
    Read { file: DiskFile, offset: int, len: int },
    Write { file: DiskFile, offset: int, data: Seq<u8> },
    SetLen { file: DiskFile, size: int },
    SyncData { file: DiskFile },
    SyncAll { file: DiskFile },
}

impl View for DiskOp {
    type V = DiskOpView;

    open spec fn view(&self) -> DiskOpView {
        match *self {
            DiskOp::Read { file, offset, len } => DiskOpView::Read {
                file,
                offset: offset as int,
                len: len as int,
            },
            DiskOp::Write { file, offset, data } => DiskOpView::Write {
                file,
                offset: offset as int,
                data: data@,
            },
            DiskOp::SetLen { file, size } => DiskOpView::SetLen { file, size: size as int },
            DiskOp::SyncData { file } => DiskOpView::SyncData { file },
            DiskOp::SyncAll { file } => DiskOpView::SyncAll { file },
        }
    }
}

/// The bytes of an answer.
pub open spec fn answer_bytes(r: Option<Vec<u8>>) -> Option<Seq<u8>> {
    match r {
        Some(v) => Some(v@),
        None => None,
    }
}

/// An operation that was performed, and its answer.
pub struct DiskEvent {
    pub op: DiskOpView,
    pub answer: Option<Seq<u8>>,
}

impl DiskEvent {
    /// The operation succeeded.
    pub open spec fn ok(self) -> bool {
        self.answer is Some
    }

    /// What a read gave; an answer of another length than was asked for counts as a failure.
    pub open spec fn bytes_read(self) -> Option<Seq<u8>> {
        match (self.op, self.answer) {
            (DiskOpView::Read { len, .. }, Some(b)) => if b.len() == len {
                Some(b)
            } else {
                None
            },
            _ => None,
        }
    }

    /// `io` may answer the operation so.
    pub open spec fn answered_by<IO: Fn(DiskOp) -> Option<Vec<u8>>>(self, io: IO) -> bool {
        exists|o: DiskOp, r: Option<Vec<u8>>|
            o@ == self.op && #[trigger] call_ensures(io, (o,), r) && self.answer == answer_bytes(r)
    }
}

/// The events that a record `now` has beyond the record `then`.
pub open spec fn events(then: Seq<DiskEvent>, now: Seq<DiskEvent>) -> Seq<DiskEvent> {
    now.skip(then.len() as int)
}

/// The events `t` are those of the operations, performed in order up to the first failure; `ok`
/// says that there was none.
pub open spec fn ops_ran(ops: Seq<DiskOpView>, t: Seq<DiskEvent>, ok: bool) -> bool
    decreases ops.len(),
{
    if ops.len() == 0 {
        t.len() == 0 && ok
    } else {
        &&& t.len() >= 1
        &&& t[0].op == ops[0]
        &&& if t[0].ok() {
            ops_ran(ops.skip(1), t.skip(1), ok)
        } else {
            t.len() == 1 && !ok
        }
    }
}

/// The open files of a backend.
pub struct Disk<IO> {
    io: IO,
    log: Ghost<Seq<DiskEvent>>,
}

impl<IO> View for Disk<IO> {
    type V = Seq<DiskEvent>;

    /// Every operation that was performed, oldest first.
    closed spec fn view(&self) -> Seq<DiskEvent> {
        self.log@
    }
}

impl<IO> Disk<IO> {
    /// The function that performs the operations.
    pub closed spec fn io(&self) -> IO {
        self.io
    }
}

impl<IO: Fn(DiskOp) -> Option<Vec<u8>>> Disk<IO> {
    /// Every operation can be asked for, and every answer on record is one that the function
    /// gives.
    pub open spec fn wf(&self) -> bool {
        &&& forall|o: DiskOp| call_requires(self.io(), (o,))
        &&& forall|i: int| 0 <= i < self@.len() ==> (#[trigger] self@[i]).answered_by(self.io())
    }

    pub fn new(io: IO) -> (d: Self)
        requires
            forall|o: DiskOp| call_requires(io, (o,)),
        ensures
            d.wf(),
            d.io() == io,
            d@ == Seq::<DiskEvent>::empty(),
    {
        Disk { io, log: Ghost(Seq::empty()) }
    }

    /// Performs one operation.
    fn ask(&mut self, op: DiskOp) -> (r: Option<Vec<u8>>)
        requires
            old(self).wf(),
        ensures
            final(self).wf(),
            final(self).io() == old(self).io(),
            final(self)@ == old(self)@.push(DiskEvent { op: op@, answer: answer_bytes(r) }),
    {
        let ghost asked = op;
        assert(call_requires(self.io(), (asked,)));
        let r = (self.io)(op);
        let ghost e = DiskEvent { op: asked@, answer: answer_bytes(r) };
        proof {
            assert(call_ensures(self.io, (asked,), r));
            assert(e.answered_by(self.io));
            self.log = Ghost(self.log@.push(e));
            assert forall|o: DiskOp| call_requires(self.io(), (o,)) by {
                assert(call_requires(old(self).io(), (o,)));
            }
            assert forall|i: int| 0 <= i < self@.len() implies (#[trigger] self@[i]).answered_by(
                self.io(),
            ) by {
                if i < old(self)@.len() {
                    assert(old(self)@[i].answered_by(old(self).io()));
                }
            }
        }
        r
    }

    /// Performs an operation that reads nothing; returns whether it succeeded.
    pub fn perform(&mut self, op: DiskOp) -> (ok: bool)
        requires
            old(self).wf(),
        ensures
            final(self).wf(),
            final(self).io() == old(self).io(),
            final(self)@ == old(self)@.push(final(self)@.last()),
            final(self)@.last().op == op@,
            ok == final(self)@.last().ok(),
    {
        match self.ask(op) {
            Some(_) => true,
            None => false,
        }
    }

    /// Reads exactly `len` bytes at `offset`.
    pub fn read_exact_at(&mut self, file: DiskFile, offset: u64, len: usize) -> (r: Option<Vec<u8>>)
        requires
            old(self).wf(),
        ensures
            final(self).wf(),
            final(self).io() == old(self).io(),
            final(self)@ == old(self)@.push(final(self)@.last()),
            final(self)@.last().op == (DiskOpView::Read {
                file,
                offset: offset as int,
                len: len as int,
            }),
            answer_bytes(r) == final(self)@.last().bytes_read(),
            r matches Some(v) ==> v@.len() == len,
    {
        match self.ask(DiskOp::Read { file, offset, len }) {
            Some(bytes) => {
                if bytes.len() == len {
                    Some(bytes)
                } else {
                    None
                }
            },
            None => None,
        }
    }
}

} // verus!
