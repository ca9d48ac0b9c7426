//! The decisions of the threads that serve device queues, and of those who pause them.
//!
//! A worker serves its queues until it is told to stop. Before a snapshot is captured it is asked
//! to pause: it serves once more what stopped vCPUs have published, then acknowledges and parks,
//! so that neither device state nor guest memory can change while it is serialized. The worker
//! itself performs the actions that are chosen here and reports back.
use vstd::prelude::*;

verus! {

/// What a worker serves.
#[derive(Debug, Copy, Clone, PartialEq, Eq, Structural)]
pub enum WorkerKind {
    Block,
    Network,
    Vsock,
}

/// Where a worker stands.
#[derive(Debug, Copy, Clone, PartialEq, Eq, Structural)]
pub enum WorkerPhase {
    /// It serves its queues.
    Running,
    /// It serves once more, in order to pause.
    Draining,
    /// It has acknowledged a pause and touches nothing.
    Parked,
    /// It is gone.
    Exited,
}

/// What a worker is to do next.
#[derive(Debug, Copy, Clone, PartialEq, Eq, Structural)]
pub enum WorkerAction {
    /// End.
    Exit,
    /// Serve everything once and report how it went.
    Drain,
    /// Acknowledge the pause.
    Acknowledge,
    /// Wait a moment.
    Sleep,
    /// Take the acknowledgement back.
    Withdraw,
    /// Wait for something to serve.
    Poll,
}

/// One piece of work.
#[derive(Debug, Copy, Clone, PartialEq, Eq, Structural)]
pub enum ServeAction {
    /// Consume the counter of the queue's notifications.
    DrainKick,
    /// Consume the counter of wake-ups.
    DrainWake,
    /// Process what the guest has queued.
    ServeQueue,
    /// Take what has come from the host.
    ServeHost,
}

/// What waiting for something to serve gave.
#[derive(Debug, Copy, Clone, PartialEq, Eq, Structural)]
pub enum PollOutcome {
    /// It failed.
    Failed { interrupted: bool },
    /// The time was up.
    TimedOut,
    /// The queue was notified, or the worker was woken up.
    Ready { kick: bool, wake: bool },
}

/// A worker.
#[derive(Debug, Copy, Clone, PartialEq, Eq, Structural)]
pub struct Worker {
    pub kind: WorkerKind,
    pub phase: WorkerPhase,
}

/// The acknowledgement that others see, after an action of the worker.
pub open spec fn acknowledged(before: bool, action: WorkerAction) -> bool {
    match action {
        WorkerAction::Acknowledge => true,
        WorkerAction::Withdraw => false,
        _ => before,
    }
}

impl Worker {
    /// What the worker does when it looks at its flags, and where it stands then.
    pub open spec fn chosen(self, stop: bool, pause_req: bool) -> (WorkerAction, WorkerPhase) {
        match self.phase {
            WorkerPhase::Running => if stop {
                (WorkerAction::Exit, WorkerPhase::Exited)
            } else if pause_req {
                (WorkerAction::Drain, WorkerPhase::Draining)
            } else {
                (WorkerAction::Poll, WorkerPhase::Running)
            },
            WorkerPhase::Draining => (WorkerAction::Drain, WorkerPhase::Draining),
            WorkerPhase::Parked => if pause_req && !stop {
                (WorkerAction::Sleep, WorkerPhase::Parked)
            } else {
                (WorkerAction::Withdraw, WorkerPhase::Running)
            },
            WorkerPhase::Exited => (WorkerAction::Exit, WorkerPhase::Exited),
        }
    }

    /// What serving once more in order to pause leads to.
    pub open spec fn after_drain(self, ok: bool) -> (WorkerAction, WorkerPhase) {
        if self.phase != WorkerPhase::Draining {
            (WorkerAction::Sleep, self.phase)
        } else if ok {
            (WorkerAction::Acknowledge, WorkerPhase::Parked)
        } else {
            (WorkerAction::Exit, WorkerPhase::Exited)
        }
    }

    /// The work that follows on waiting, or `None` where the worker is to end.
    pub open spec fn plan(self, outcome: PollOutcome, stop: bool) -> Option<Seq<ServeAction>> {
        match outcome {
            PollOutcome::Failed { interrupted } => if interrupted {
                Some(Seq::empty())
            } else {
                None
            },
            PollOutcome::TimedOut => match self.kind {
                WorkerKind::Block => if stop {
                    None
                } else {
                    Some(seq![ServeAction::DrainKick, ServeAction::ServeQueue])
                },
                WorkerKind::Network => Some(Seq::empty()),
                WorkerKind::Vsock => Some(seq![ServeAction::ServeHost]),
            },
            PollOutcome::Ready { kick, wake } => match self.kind {
                WorkerKind::Block => if stop {
                    None
                } else {
                    Some(woken(wake) + kicked(kick))
                },
                WorkerKind::Network => Some(kicked(kick) + woken(wake)),
                WorkerKind::Vsock => Some(kicked(kick) + woken(wake) + seq![ServeAction::ServeHost]),
            },
        }
    }

    pub fn new(kind: WorkerKind) -> (w: Self)
        ensures
            w.kind == kind,
            w.phase == WorkerPhase::Running,
    {
        Worker { kind, phase: WorkerPhase::Running }
    }

    /// Looks at the flags and chooses what to do.
    pub fn next(&mut self, stop: bool, pause_req: bool) -> (a: WorkerAction)
        ensures
            (a, final(self).phase) == old(self).chosen(stop, pause_req),
            final(self).kind == old(self).kind,
    {
        match self.phase {
            WorkerPhase::Running => {
                if stop {
                    self.phase = WorkerPhase::Exited;
                    WorkerAction::Exit
                } else if pause_req {
                    self.phase = WorkerPhase::Draining;
                    WorkerAction::Drain
                } else {
                    WorkerAction::Poll
                }
            },
            WorkerPhase::Draining => WorkerAction::Drain,
            WorkerPhase::Parked => {
                if pause_req && !stop {
                    WorkerAction::Sleep
                } else {
                    self.phase = WorkerPhase::Running;
                    WorkerAction::Withdraw
                }
            },
            WorkerPhase::Exited => WorkerAction::Exit,
        }
    }

    /// The work to be done once more before parking. Notification counters are host state that no
    /// snapshot holds, so the queue is served even where its counter is empty.
    pub fn drain_plan(&self) -> (v: Vec<ServeAction>)
        ensures
            v@ == (if self.kind == WorkerKind::Block {
                seq![ServeAction::DrainKick, ServeAction::ServeQueue]
            } else {
                seq![ServeAction::DrainKick, ServeAction::ServeQueue, ServeAction::ServeHost]
            }),
    {
        let mut v: Vec<ServeAction> = vec![ServeAction::DrainKick, ServeAction::ServeQueue];
        match self.kind {
            WorkerKind::Block => {},
            _ => {
                v.push(ServeAction::ServeHost);
            },
        }
        assert(self.kind != WorkerKind::Block ==> v@ =~= seq![
            ServeAction::DrainKick,
            ServeAction::ServeQueue,
            ServeAction::ServeHost,
        ]);
        v
    }

    /// Reports how serving once more went.
    pub fn drained(&mut self, ok: bool) -> (a: WorkerAction)
        ensures
            (a, final(self).phase) == old(self).after_drain(ok),
            final(self).kind == old(self).kind,
    {
        match self.phase {
            WorkerPhase::Draining => {
                if ok {
                    self.phase = WorkerPhase::Parked;
                    WorkerAction::Acknowledge
                } else {
                    self.phase = WorkerPhase::Exited;
                    WorkerAction::Exit
                }
            },
            _ => WorkerAction::Sleep,
        }
    }

    /// Reports what waiting gave; returns the work to do, or `None` where the worker is to end.
    pub fn polled(&mut self, outcome: PollOutcome, stop: bool) -> (r: Option<Vec<ServeAction>>)
        ensures
            final(self).kind == old(self).kind,
            match old(self).plan(outcome, stop) {
                Some(actions) => (r matches Some(v) && v@ == actions) && final(self).phase == old(
                    self,
                ).phase,
                None => r is None && final(self).phase == WorkerPhase::Exited,
            },
    {
        let mut v: Vec<ServeAction> = Vec::new();
        let ended: bool = match outcome {
            PollOutcome::Failed { interrupted } => !interrupted,
            PollOutcome::TimedOut => match self.kind {
                WorkerKind::Block => {
                    push_kick(&mut v, true);
                    stop
                },
                WorkerKind::Network => false,
                WorkerKind::Vsock => {
                    v.push(ServeAction::ServeHost);
                    false
                },
            },
            PollOutcome::Ready { kick, wake } => match self.kind {
                WorkerKind::Block => {
                    push_wake(&mut v, wake);
                    push_kick(&mut v, kick);
                    stop
                },
                WorkerKind::Network => {
                    push_kick(&mut v, kick);
                    push_wake(&mut v, wake);
                    false
                },
                WorkerKind::Vsock => {
                    push_kick(&mut v, kick);
                    push_wake(&mut v, wake);
                    v.push(ServeAction::ServeHost);
                    false
                },
            },
        };
        if ended {
            self.phase = WorkerPhase::Exited;
            return None;
        }
        assert(v@ =~= old(self).plan(outcome, stop)->0);
        Some(v)
    }

    /// Reports that a piece of work failed: the worker ends.
    pub fn serve_failed(&mut self)
        ensures
            final(self).phase == WorkerPhase::Exited,
            final(self).kind == old(self).kind,
    {
        self.phase = WorkerPhase::Exited;
    }
}

/// The work after a notification of the queue.
pub open spec fn kicked(kick: bool) -> Seq<ServeAction> {
    if kick {
        seq![ServeAction::DrainKick, ServeAction::ServeQueue]
    } else {
        Seq::empty()
    }
}

/// The work after a wake-up.
pub open spec fn woken(wake: bool) -> Seq<ServeAction> {
    if wake {
        seq![ServeAction::DrainWake]
    } else {
        Seq::empty()
    }
}

fn push_kick(v: &mut Vec<ServeAction>, kick: bool)
    ensures
        final(v)@ == old(v)@ + kicked(kick),
{
    if kick {
        v.push(ServeAction::DrainKick);
        v.push(ServeAction::ServeQueue);
    }
    assert(v@ =~= old(v)@ + kicked(kick));
}

fn push_wake(v: &mut Vec<ServeAction>, wake: bool)
    ensures
        final(v)@ == old(v)@ + woken(wake),
{
    if wake {
        v.push(ServeAction::DrainWake);
    }
    assert(v@ =~= old(v)@ + woken(wake));
}

/// The tags under which the network worker waits for its sources.
pub const TAG_TAP: u64 = 1;

pub const TAG_KICK: u64 = 2;

pub const TAG_WAKE: u64 = 3;

/// The work that one event brings.
pub open spec fn event_work(tag: u64) -> Seq<ServeAction> {
    if tag == TAG_TAP {
        seq![ServeAction::ServeHost]
    } else if tag == TAG_KICK {
        kicked(true)
    } else if tag == TAG_WAKE {
        woken(true)
    } else {
        Seq::empty()
    }
}

/// The work that events bring, in their order.
pub open spec fn events_work(tags: Seq<u64>) -> Seq<ServeAction>
    decreases tags.len(),
{
    if tags.len() == 0 {
        Seq::empty()
    } else {
        events_work(tags.drop_last()) + event_work(tags.last())
    }
}

/// The work that the events of the network worker bring, in their order.
pub fn network_events(tags: &[u64]) -> (v: Vec<ServeAction>)
    ensures
        v@ == events_work(tags@),
{
    let mut v: Vec<ServeAction> = Vec::new();
    let mut i: usize = 0;
    assert(tags@.take(0) =~= Seq::empty());
    while i < tags.len()
        invariant
            i <= tags@.len(),
            v@ =~= events_work(tags@.take(i as int)),
        decreases tags@.len() - i,
    {
        assert(tags@.take(i + 1).drop_last() =~= tags@.take(i as int));
        let tag: u64 = tags[i];
        if tag == TAG_TAP {
            v.push(ServeAction::ServeHost);
        } else if tag == TAG_KICK {
            push_kick(&mut v, true);
        } else if tag == TAG_WAKE {
            push_wake(&mut v, true);
        }
        i += 1;
    }
    assert(tags@.take(i as int) =~= tags@);
    v
}

/// What to do after reading a frame from the tap and offering it to the guest.
#[derive(Debug, Copy, Clone, PartialEq, Eq, Structural)]
pub enum TapStep {
    /// Read the next frame.
    More,
    /// Leave the rest for later.
    Enough,
    /// The device has failed.
    Failed,
}

/// Whether a read from the tap gave a frame: a negative result is an error, and zero the end.
pub fn tap_frame_len(rc: i64) -> (r: Option<u64>)
    ensures
        r == (if rc > 0 {
            Some(rc as u64)
        } else {
            None
        }),
{
    if rc > 0 {
        Some(rc as u64)
    } else {
        None
    }
}

/// What to do after a frame was offered to the guest: `Some(true)` where a chain of its queue was
/// consumed, `Some(false)` where its queue was full, `None` where the device failed.
pub fn after_inject(consumed: Option<bool>) -> (s: TapStep)
    ensures
        s == (match consumed {
            Some(true) => TapStep::More,
            Some(false) => TapStep::Enough,
            None => TapStep::Failed,
        }),
{
    match consumed {
        Some(true) => TapStep::More,
        Some(false) => TapStep::Enough,
        None => TapStep::Failed,
    }
}

/// Why a worker could not be paused or resumed.
#[derive(Debug, Copy, Clone, PartialEq, Eq, Structural)]
pub enum QuiesceError {
    /// The worker was gone before it was asked.
    GoneBefore,
    /// The worker went away while it was waited for.
    GoneDuring,
    /// The worker did not answer in time.
    TimedOut,
}

/// What whoever waits for a worker is to do.
#[derive(Debug, Copy, Clone, PartialEq, Eq)]
pub struct QuiesceStep {
    /// How waiting ended, or `None` to go on waiting.
    pub outcome: Option<Result<(), QuiesceError>>,
    /// The request to pause is to be taken back.
    pub withdraw_request: bool,
    /// The device is to be marked as failed.
    pub fail_device: bool,
}

impl QuiesceStep {
    pub open spec fn on(outcome: Result<(), QuiesceError>) -> QuiesceStep {
        QuiesceStep { outcome: Some(outcome), withdraw_request: false, fail_device: false }
    }

    pub open spec fn waiting() -> QuiesceStep {
        QuiesceStep { outcome: None, withdraw_request: false, fail_device: false }
    }
}

/// A worker that went away without being stopped leaves its device failed; the network worker's
/// device has no such state.
pub open spec fn exit_fails_device(kind: WorkerKind, stopped: bool) -> bool {
    kind != WorkerKind::Network && !stopped
}

/// The answer to whoever asks a worker that is already gone.
pub fn gone_before(kind: WorkerKind, stopped: bool) -> (s: QuiesceStep)
    ensures
        s == (QuiesceStep {
            fail_device: exit_fails_device(kind, stopped),
            ..QuiesceStep::on(Err(QuiesceError::GoneBefore))
        }),
{
    let network = match kind {
        WorkerKind::Network => true,
        _ => false,
    };
    QuiesceStep {
        outcome: Some(Err(QuiesceError::GoneBefore)),
        withdraw_request: false,
        fail_device: !network && !stopped,
    }
}

/// What to do while waiting for a pause to be acknowledged. A slow backing operation of a block
/// device can outlive the time allowed: the request is taken back, and the healthy worker goes
/// on. For a vsock device the time running out is a failure.
pub fn pause_step(
    kind: WorkerKind,
    acknowledged: bool,
    gone: bool,
    stopped: bool,
    expired: bool,
) -> (s: QuiesceStep)
    ensures
        acknowledged ==> s == QuiesceStep::on(Ok(())),
        !acknowledged && gone ==> s == (QuiesceStep {
            withdraw_request: true,
            fail_device: exit_fails_device(kind, stopped),
            ..QuiesceStep::on(Err(QuiesceError::GoneDuring))
        }),
        !acknowledged && !gone && expired ==> s == (QuiesceStep {
            withdraw_request: true,
            fail_device: kind == WorkerKind::Vsock,
            ..QuiesceStep::on(Err(QuiesceError::TimedOut))
        }),
        !acknowledged && !gone && !expired ==> s == QuiesceStep::waiting(),
{
    let (network, vsock) = match kind {
        WorkerKind::Network => (true, false),
        WorkerKind::Vsock => (false, true),
        WorkerKind::Block => (false, false),
    };
    if acknowledged {
        QuiesceStep { outcome: Some(Ok(())), withdraw_request: false, fail_device: false }
    } else if gone {
        QuiesceStep {
            outcome: Some(Err(QuiesceError::GoneDuring)),
            withdraw_request: true,
            fail_device: !network && !stopped,
        }
    } else if expired {
        QuiesceStep {
            outcome: Some(Err(QuiesceError::TimedOut)),
            withdraw_request: true,
            fail_device: vsock,
        }
    } else {
        QuiesceStep { outcome: None, withdraw_request: false, fail_device: false }
    }
}

/// What to do while waiting for a worker to leave its parked state. The network worker is not
/// waited for.
pub fn resume_step(
    kind: WorkerKind,
    acknowledged: bool,
    gone: bool,
    stopped: bool,
    expired: bool,
) -> (s: QuiesceStep)
    ensures
        !acknowledged || kind == WorkerKind::Network ==> s == QuiesceStep::on(Ok(())),
        acknowledged && kind != WorkerKind::Network && gone ==> s == (QuiesceStep {
            fail_device: !stopped,
            ..QuiesceStep::on(Err(QuiesceError::GoneDuring))
        }),
        acknowledged && kind != WorkerKind::Network && !gone && expired ==> s == (QuiesceStep {
            fail_device: true,
            ..QuiesceStep::on(Err(QuiesceError::TimedOut))
        }),
        acknowledged && kind != WorkerKind::Network && !gone && !expired ==> s
            == QuiesceStep::waiting(),
{
    let network = match kind {
        WorkerKind::Network => true,
        _ => false,
    };
    if network || !acknowledged {
        QuiesceStep { outcome: Some(Ok(())), withdraw_request: false, fail_device: false }
    } else if gone {
        QuiesceStep {
            outcome: Some(Err(QuiesceError::GoneDuring)),
            withdraw_request: false,
            fail_device: !stopped,
        }
    } else if expired {
        QuiesceStep {
            outcome: Some(Err(QuiesceError::TimedOut)),
            withdraw_request: false,
            fail_device: true,
        }
    } else {
        QuiesceStep { outcome: None, withdraw_request: false, fail_device: false }
    }
}

/// The acknowledgement stands exactly while the worker is parked, whatever flags it sees and
/// however its work goes.
pub proof fn law_acknowledged_while_parked(w: Worker, ack: bool, stop: bool, pause_req: bool, ok: bool)
    requires
        ack == (w.phase == WorkerPhase::Parked),
    ensures
        acknowledged(ack, w.chosen(stop, pause_req).0) == (w.chosen(stop, pause_req).1
            == WorkerPhase::Parked),
        acknowledged(ack, w.after_drain(ok).0) == (w.after_drain(ok).1 == WorkerPhase::Parked),
{
}

/// While the request stands and the worker is not stopped, a parked worker stays parked and only
/// waits.
pub proof fn law_parked_until_released(w: Worker)
    requires
        w.phase == WorkerPhase::Parked,
    ensures
        w.chosen(false, true) == (WorkerAction::Sleep, WorkerPhase::Parked),
        forall|ok: bool| #[trigger] w.after_drain(ok) == (WorkerAction::Sleep, WorkerPhase::Parked),
{
}

/// A released worker takes its acknowledgement back before it serves again, so a later pause
/// cannot take the old acknowledgement for its own.
pub proof fn law_released_worker_withdraws(w: Worker, stop: bool)
    requires
        w.phase == WorkerPhase::Parked,
    ensures
        w.chosen(stop, false) == (WorkerAction::Withdraw, WorkerPhase::Running),
        !acknowledged(true, w.chosen(stop, false).0),
{
}

/// A pause is acknowledged only after everything was served once more.
pub proof fn law_acknowledged_after_drain(w: Worker, stop: bool, pause_req: bool, ok: bool)
    ensures
        w.chosen(stop, pause_req).0 != WorkerAction::Acknowledge,
        w.after_drain(ok).0 == WorkerAction::Acknowledge ==> w.phase == WorkerPhase::Draining && ok,
{
}

/// A running worker ends exactly when it is stopped, serves once more exactly when it is asked to
/// pause and not stopped, and waits for work otherwise. One that serves once more keeps at it until
/// that has gone well, and is then parked, or badly, and is then gone. One that is gone stays so.
pub proof fn law_worker_obeys_its_flags(w: Worker, stop: bool, pause_req: bool, ok: bool)
    ensures
        w.phase == WorkerPhase::Running ==> {
            &&& w.chosen(stop, pause_req).0 == WorkerAction::Exit <==> stop
            &&& w.chosen(stop, pause_req).0 == WorkerAction::Drain <==> pause_req && !stop
            &&& w.chosen(stop, pause_req).0 == WorkerAction::Poll <==> !pause_req && !stop
            &&& w.chosen(stop, pause_req).1 == WorkerPhase::Running <==> !pause_req && !stop
        },
        w.phase == WorkerPhase::Draining ==> {
            &&& w.chosen(stop, pause_req) == (WorkerAction::Drain, WorkerPhase::Draining)
            &&& w.after_drain(ok).1 == WorkerPhase::Parked <==> ok
            &&& w.after_drain(ok).0 == WorkerAction::Exit <==> !ok
        },
        w.phase == WorkerPhase::Parked ==> (w.chosen(stop, pause_req).1 == WorkerPhase::Parked
            <==> pause_req && !stop),
        w.phase == WorkerPhase::Exited ==> w.chosen(stop, pause_req).1 == WorkerPhase::Exited
            && w.after_drain(ok).1 == WorkerPhase::Exited,
        w.chosen(stop, pause_req).0 == WorkerAction::Exit <==> w.chosen(stop, pause_req).1
            == WorkerPhase::Exited,
        w.after_drain(ok).0 == WorkerAction::Exit ==> w.after_drain(ok).1 == WorkerPhase::Exited,
{
}

/// The queue is served at place `i`: its counter is consumed, and what the guest has queued is
/// processed right behind.
pub open spec fn serves_at(actions: Seq<ServeAction>, i: int) -> bool {
    &&& 0 <= i
    &&& i + 1 < actions.len()
    &&& actions[i] == ServeAction::DrainKick
    &&& actions[i + 1] == ServeAction::ServeQueue
}

/// What waiting gave decides the work. A failure ends the worker unless it was an interruption,
/// and so does a stop where a block worker has waited. A notified queue is served, a wake-up is
/// consumed, and a vsock worker takes what has come from the host each time it has waited, a block
/// worker serves its queue also when the time was up. Each is done once, and nothing else is.
pub proof fn law_waiting_decides_the_work(w: Worker, outcome: PollOutcome, stop: bool)
    ensures
        ({
            let failed = outcome is Failed;
            let block = w.kind == WorkerKind::Block;
            let kick = match outcome {
                PollOutcome::Ready { kick, .. } => kick,
                PollOutcome::TimedOut => block,
                PollOutcome::Failed { .. } => false,
            };
            let wake = outcome matches PollOutcome::Ready { wake, .. } && wake;
            let host = w.kind == WorkerKind::Vsock && !failed;
            &&& w.plan(outcome, stop) is None <==> outcome == (PollOutcome::Failed {
                interrupted: false,
            }) || block && stop && !failed
            &&& w.plan(outcome, stop) matches Some(actions) ==> {
                &&& kick <==> exists|i: int| serves_at(actions, i)
                &&& wake <==> actions.contains(ServeAction::DrainWake)
                &&& host <==> actions.contains(ServeAction::ServeHost)
                &&& actions.len() == (if kick {
                    2int
                } else {
                    0
                }) + (if wake {
                    1int
                } else {
                    0
                }) + (if host {
                    1int
                } else {
                    0
                })
            }
        }),
{
    if let Some(actions) = w.plan(outcome, stop) {
        let kick = match outcome {
            PollOutcome::Ready { kick, .. } => kick,
            PollOutcome::TimedOut => w.kind == WorkerKind::Block,
            PollOutcome::Failed { .. } => false,
        };
        let wake = outcome matches PollOutcome::Ready { wake, .. } && wake;
        let before: int = if wake && w.kind == WorkerKind::Block {
            1
        } else {
            0
        };
        if kick {
            assert(serves_at(actions, before));
        }
        if wake {
            let at: int = if kick && w.kind != WorkerKind::Block {
                2
            } else {
                0
            };
            assert(actions[at] == ServeAction::DrainWake);
        }
        if w.kind == WorkerKind::Vsock && !(outcome is Failed) {
            assert(actions[actions.len() - 1] == ServeAction::ServeHost);
        }
    }
}

/// Before it parks a worker serves its queue, whatever its counter holds, and takes what has come
/// from the host where that is its work too.
pub proof fn law_drain_serves_everything(w: &Worker, v: Vec<ServeAction>)
    requires
        call_ensures(Worker::drain_plan, (w,), v),
    ensures
        serves_at(v@, 0),
        v@.contains(ServeAction::ServeHost) <==> w.kind != WorkerKind::Block,
        v@.len() <= 3,
{
    if w.kind != WorkerKind::Block {
        assert(v@[2] == ServeAction::ServeHost);
    }
}

/// The events of the network worker bring their work one after the other: those of more events are
/// those of the first, then those of the rest. A frame of the tap is taken from the host, a
/// notification has the queue served, a wake-up is consumed, and nothing else brings work.
pub proof fn law_events_bring_their_work(a: Seq<u64>, b: Seq<u64>, tag: u64)
    ensures
        events_work(a + b) == events_work(a) + events_work(b),
        events_work(seq![tag]) == (if tag == TAG_TAP {
            seq![ServeAction::ServeHost]
        } else if tag == TAG_KICK {
            seq![ServeAction::DrainKick, ServeAction::ServeQueue]
        } else if tag == TAG_WAKE {
            seq![ServeAction::DrainWake]
        } else {
            Seq::empty()
        }),
    decreases b.len(),
{
    if b.len() == 0 {
        assert(a + b =~= a);
        assert(events_work(a) + events_work(b) =~= events_work(a));
    } else {
        law_events_bring_their_work(a, b.drop_last(), tag);
        assert((a + b).drop_last() =~= a + b.drop_last());
        assert(events_work(a) + (events_work(b.drop_last()) + event_work(b.last())) =~= (
        events_work(a) + events_work(b.drop_last())) + event_work(b.last()));
    }
    let one = seq![tag];
    assert(one.drop_last() =~= Seq::empty());
    assert(events_work(one.drop_last()) == Seq::<ServeAction>::empty());
    assert(one.last() == tag);
    assert(events_work(one) == events_work(one.drop_last()) + event_work(tag));
    assert(Seq::<ServeAction>::empty() + event_work(tag) =~= event_work(tag));
}

/// Waiting for a pause ends well exactly when it is acknowledged, and badly exactly when the
/// worker is gone or the time is up; the request is then taken back. A device fails where its
/// worker went away without being stopped, or where a vsock worker did not answer in time; that of
/// a network worker never does.
pub proof fn law_pause_is_waited_for(
    kind: WorkerKind,
    acknowledged: bool,
    gone: bool,
    stopped: bool,
    expired: bool,
    s: QuiesceStep,
)
    requires
        call_ensures(pause_step, (kind, acknowledged, gone, stopped, expired), s),
    ensures
        s.outcome == Some(Ok::<(), QuiesceError>(())) <==> acknowledged,
        s.outcome is None <==> !acknowledged && !gone && !expired,
        s.outcome == Some(Err::<(), QuiesceError>(QuiesceError::GoneDuring)) <==> !acknowledged
            && gone,
        s.outcome == Some(Err::<(), QuiesceError>(QuiesceError::TimedOut)) <==> !acknowledged
            && !gone && expired,
        s.withdraw_request <==> !acknowledged && (gone || expired),
        s.fail_device <==> !acknowledged && (gone && !stopped && kind != WorkerKind::Network
            || !gone && expired && kind == WorkerKind::Vsock),
{
}

/// Waiting for a worker to go on ends well exactly when its acknowledgement is gone, or at once
/// for the network worker. It ends badly, and a request is not taken back, where the worker is
/// gone or the time is up; the device fails unless the worker was stopped.
pub proof fn law_resume_is_waited_for(
    kind: WorkerKind,
    acknowledged: bool,
    gone: bool,
    stopped: bool,
    expired: bool,
    s: QuiesceStep,
)
    requires
        call_ensures(resume_step, (kind, acknowledged, gone, stopped, expired), s),
    ensures
        s.outcome == Some(Ok::<(), QuiesceError>(())) <==> !acknowledged || kind
            == WorkerKind::Network,
        s.outcome is None <==> acknowledged && kind != WorkerKind::Network && !gone && !expired,
        s.outcome == Some(Err::<(), QuiesceError>(QuiesceError::GoneDuring)) <==> acknowledged
            && kind != WorkerKind::Network && gone,
        s.outcome == Some(Err::<(), QuiesceError>(QuiesceError::TimedOut)) <==> acknowledged
            && kind != WorkerKind::Network && !gone && expired,
        !s.withdraw_request,
        s.fail_device <==> acknowledged && kind != WorkerKind::Network && (gone && !stopped || !gone
            && expired),
{
}

/// Whoever asks a worker that is gone is told so, and its device fails unless it was stopped; that
/// of the network worker never does.
pub proof fn law_gone_worker_is_told(kind: WorkerKind, stopped: bool, s: QuiesceStep)
    requires
        call_ensures(gone_before, (kind, stopped), s),
    ensures
        s.outcome == Some(Err::<(), QuiesceError>(QuiesceError::GoneBefore)),
        !s.withdraw_request,
        s.fail_device <==> !stopped && kind != WorkerKind::Network,
{
}

/// A read of the tap gives a frame exactly where it returned more than zero, of that length. What
/// is read next depends on the frame before: the next one where it took a chain, none where the
/// guest has no room.
pub proof fn law_tap_is_read_while_there_is_room(
    rc: i64,
    len: Option<u64>,
    consumed: Option<bool>,
    s: TapStep,
)
    requires
        call_ensures(tap_frame_len, (rc,), len),
        call_ensures(after_inject, (consumed,), s),
    ensures
        len is Some <==> rc > 0,
        len matches Some(n) ==> n == rc,
        s == TapStep::More <==> consumed == Some(true),
        s == TapStep::Enough <==> consumed == Some(false),
        s == TapStep::Failed <==> consumed is None,
{
}

/// What a worker does next, after a drain and after it has waited is what the laws say of its
/// choice; each call leaves it in the phase that goes with it.
pub proof fn law_worker_does_as_chosen(
    stop: bool,
    pause_req: bool,
    ok: bool,
    a: WorkerAction,
    outcome: PollOutcome,
    r: Option<Vec<ServeAction>>,
)
    ensures
        forall|w: &mut Worker| #[trigger]
            call_ensures(Worker::next, (w, stop, pause_req), a) && (*w).phase
                == WorkerPhase::Running ==> {
                &&& a == WorkerAction::Exit <==> stop
                &&& a == WorkerAction::Drain <==> pause_req && !stop
                &&& a == WorkerAction::Poll <==> !pause_req && !stop
                &&& (*final(w)).phase == WorkerPhase::Running <==> !pause_req && !stop
                &&& (*final(w)).kind == (*w).kind
            },
        forall|w: &mut Worker| #[trigger]
            call_ensures(Worker::next, (w, stop, pause_req), a) && (*w).phase
                == WorkerPhase::Parked ==> ((*final(w)).phase == WorkerPhase::Parked <==> pause_req
                && !stop),
        forall|w: &mut Worker| #[trigger]
            call_ensures(Worker::drained, (w, ok), a) && (*w).phase == WorkerPhase::Draining ==> {
                &&& (*final(w)).phase == WorkerPhase::Parked <==> ok
                &&& a == WorkerAction::Exit <==> !ok
            },
        forall|w: &mut Worker| #[trigger]
            call_ensures(Worker::polled, (w, outcome, stop), r) ==> {
                &&& r is None <==> outcome == (PollOutcome::Failed { interrupted: false })
                    || (*w).kind == WorkerKind::Block && stop && outcome !is Failed
                &&& r is None <==> (*w).plan(outcome, stop) is None
                &&& r matches Some(v) ==> v@ == (*w).plan(outcome, stop)->0
                &&& (*final(w)).phase == (if r is None {
                    WorkerPhase::Exited
                } else {
                    (*w).phase
                })
            },
{
    assert forall|w: &mut Worker| #[trigger]
        call_ensures(Worker::next, (w, stop, pause_req), a) && (*w).phase
            == WorkerPhase::Running implies {
        &&& a == WorkerAction::Exit <==> stop
        &&& a == WorkerAction::Drain <==> pause_req && !stop
        &&& a == WorkerAction::Poll <==> !pause_req && !stop
        &&& (*final(w)).phase == WorkerPhase::Running <==> !pause_req && !stop
        &&& (*final(w)).kind == (*w).kind
    } by {
        law_worker_obeys_its_flags(*w, stop, pause_req, ok);
    }
}

} // verus!
