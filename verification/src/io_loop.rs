//! The sources of events that a device thread watches.
use vstd::prelude::*;

verus! {

/// Why the event loop failed.
#[derive(Debug, Clone, PartialEq, Eq)]
pub enum IoLoopError {
    /// The sources could not be watched; the text says why.
    Epoll(String),
    /// A file operation failed; the text says why.
    Io(String),
}

/// An event source the I/O loop watches: a raw fd + the data identifying which device/queue
/// owns it.
#[derive(Debug, Copy, Clone, PartialEq, Eq, Structural)]
pub struct EventSource {
    pub fd: i32,
    pub token: u64,
}

/// The event sources of the device I/O loop, in the order in which they were registered.
pub struct IoLoop {
    pub sources: Vec<EventSource>,
}

impl IoLoop {
    pub fn new() -> (l: Self)
        ensures
            l.sources@ == Seq::<EventSource>::empty(),
    {
        IoLoop { sources: Vec::new() }
    }

    /// Register an event source (a device fd + a token identifying its owner).
    pub fn add(&mut self, src: EventSource)
        ensures
            final(self).sources@ == old(self).sources@.push(src),
    {
        self.sources.push(src);
    }

    pub fn sources(&self) -> (s: &[EventSource])
        ensures
            s@ == self.sources@,
    {
        self.sources.as_slice()
    }
}

impl Default for IoLoop {
    fn default() -> (l: Self)
        ensures
            l.sources@ == Seq::<EventSource>::empty(),
    {
        Self::new()
    }
}

/// Every source that was added is watched, in the order in which they were added, and no other.
pub proof fn law_every_source_is_watched(src: EventSource, l: &IoLoop, watched: &[EventSource])
    ensures
        forall|l: &mut IoLoop| #[trigger]
            call_ensures(IoLoop::add, (l, src), ()) ==> {
                let (before, after) = ((*l).sources@, (*final(l)).sources@);
                &&& after.len() == before.len() + 1
                &&& after[after.len() - 1] == src
                &&& forall|i: int| 0 <= i < before.len() ==> #[trigger] after[i] == before[i]
            },
        call_ensures(IoLoop::sources, (l,), watched) ==> watched@ == l.sources@,
{
}

} // verus!
