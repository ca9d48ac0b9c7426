use vmm_devices::virtio::worker::{
    after_inject, gone_before, network_events, pause_step, resume_step, tap_frame_len,
    PollOutcome, QuiesceError, ServeAction, TapStep, Worker, WorkerAction, WorkerKind,
    WorkerPhase, TAG_KICK, TAG_TAP, TAG_WAKE,
};

/// Runs a worker until it would wait, and gives the acknowledgement that others see.
fn run(worker: &mut Worker, ack: &mut bool, pause_req: bool) {
    loop {
        let mut action = worker.next(false, pause_req);
        if action == WorkerAction::Drain {
            action = worker.drained(true);
        }
        match action {
            WorkerAction::Acknowledge => *ack = true,
            WorkerAction::Withdraw => *ack = false,
            _ => return,
        }
    }
}

fn pause_and_resume_twice(kind: WorkerKind) {
    let mut worker = Worker::new(kind);
    let mut ack = false;
    for _ in 0..2 {
        assert_eq!(pause_step(kind, ack, false, false, false).outcome, None);
        run(&mut worker, &mut ack, true);
        assert!(ack);
        assert_eq!(
            pause_step(kind, ack, false, false, false).outcome,
            Some(Ok(()))
        );
        // Resuming waits for the worker to take the acknowledgement back.
        assert_eq!(resume_step(kind, ack, false, false, false).outcome, None);
        run(&mut worker, &mut ack, false);
        assert!(!ack);
        assert_eq!(
            resume_step(kind, ack, false, false, false).outcome,
            Some(Ok(()))
        );
    }
    assert_eq!(worker.next(true, false), WorkerAction::Exit);
}

#[test]
fn blk_io_loop_resume_waits_for_the_pause_acknowledgement_to_clear() {
    pause_and_resume_twice(WorkerKind::Block);
}

#[test]
fn vsock_io_loop_resume_waits_for_the_pause_acknowledgement_to_clear() {
    pause_and_resume_twice(WorkerKind::Vsock);
}

#[test]
fn the_network_worker_is_not_waited_for() {
    let step = resume_step(WorkerKind::Network, true, true, false, true);
    assert_eq!(step.outcome, Some(Ok(())));
    assert!(!step.fail_device);
}

#[test]
fn a_failed_drain_ends_the_worker_unacknowledged() {
    let mut worker = Worker::new(WorkerKind::Vsock);
    assert_eq!(worker.next(false, true), WorkerAction::Drain);
    assert_eq!(worker.drained(false), WorkerAction::Exit);
    assert_eq!(worker.phase, WorkerPhase::Exited);
    assert_eq!(worker.next(false, true), WorkerAction::Exit);
}

#[test]
fn everything_is_served_before_parking() {
    assert_eq!(
        Worker::new(WorkerKind::Block).drain_plan(),
        vec![ServeAction::DrainKick, ServeAction::ServeQueue]
    );
    assert_eq!(
        Worker::new(WorkerKind::Network).drain_plan(),
        vec![
            ServeAction::DrainKick,
            ServeAction::ServeQueue,
            ServeAction::ServeHost
        ]
    );
}

#[test]
fn a_parked_worker_leaves_for_a_stop() {
    let mut worker = Worker::new(WorkerKind::Block);
    worker.next(false, true);
    worker.drained(true);
    assert_eq!(worker.next(false, true), WorkerAction::Sleep);
    assert_eq!(worker.next(true, true), WorkerAction::Withdraw);
    assert_eq!(worker.next(true, true), WorkerAction::Exit);
}

#[test]
fn waiting_leads_to_the_work_of_each_kind() {
    let timed_out = PollOutcome::TimedOut;
    let kicked = PollOutcome::Ready {
        kick: true,
        wake: true,
    };
    let mut block = Worker::new(WorkerKind::Block);
    assert_eq!(
        block.polled(timed_out, false),
        Some(vec![ServeAction::DrainKick, ServeAction::ServeQueue])
    );
    assert_eq!(
        block.polled(kicked, false),
        Some(vec![
            ServeAction::DrainWake,
            ServeAction::DrainKick,
            ServeAction::ServeQueue
        ])
    );
    assert_eq!(block.polled(kicked, true), None);
    assert_eq!(block.phase, WorkerPhase::Exited);
    let mut vsock = Worker::new(WorkerKind::Vsock);
    assert_eq!(
        vsock.polled(timed_out, false),
        Some(vec![ServeAction::ServeHost])
    );
    assert_eq!(
        vsock.polled(kicked, false),
        Some(vec![
            ServeAction::DrainKick,
            ServeAction::ServeQueue,
            ServeAction::DrainWake,
            ServeAction::ServeHost
        ])
    );
    assert_eq!(
        vsock.polled(PollOutcome::Failed { interrupted: true }, false),
        Some(vec![])
    );
    assert_eq!(
        vsock.polled(PollOutcome::Failed { interrupted: false }, false),
        None
    );
    let mut network = Worker::new(WorkerKind::Network);
    assert_eq!(network.polled(timed_out, false), Some(vec![]));
    network.serve_failed();
    assert_eq!(network.phase, WorkerPhase::Exited);
}

#[test]
fn network_events_are_served_in_order() {
    assert_eq!(
        network_events(&[TAG_WAKE, 9, TAG_TAP, TAG_KICK]),
        vec![
            ServeAction::DrainWake,
            ServeAction::ServeHost,
            ServeAction::DrainKick,
            ServeAction::ServeQueue
        ]
    );
}

#[test]
fn the_tap_is_read_until_the_guest_is_full() {
    assert_eq!(tap_frame_len(60), Some(60));
    assert_eq!(tap_frame_len(0), None);
    assert_eq!(tap_frame_len(-1), None);
    assert_eq!(after_inject(Some(true)), TapStep::More);
    assert_eq!(after_inject(Some(false)), TapStep::Enough);
    assert_eq!(after_inject(None), TapStep::Failed);
}

#[test]
fn quiescence_errors_say_what_is_to_be_undone() {
    let gone = gone_before(WorkerKind::Block, false);
    assert_eq!(gone.outcome, Some(Err(QuiesceError::GoneBefore)));
    assert!(gone.fail_device);
    assert!(!gone_before(WorkerKind::Block, true).fail_device);
    assert!(!gone_before(WorkerKind::Network, false).fail_device);

    let during = pause_step(WorkerKind::Vsock, false, true, false, false);
    assert_eq!(during.outcome, Some(Err(QuiesceError::GoneDuring)));
    assert!(during.withdraw_request && during.fail_device);

    // A slow block backend is not a failure, a stalled vsock worker is.
    let slow = pause_step(WorkerKind::Block, false, false, false, true);
    assert_eq!(slow.outcome, Some(Err(QuiesceError::TimedOut)));
    assert!(slow.withdraw_request && !slow.fail_device);
    assert!(pause_step(WorkerKind::Vsock, false, false, false, true).fail_device);

    let stuck = resume_step(WorkerKind::Block, true, false, false, true);
    assert_eq!(stuck.outcome, Some(Err(QuiesceError::TimedOut)));
    assert!(stuck.fail_device);
    let left = resume_step(WorkerKind::Vsock, true, true, true, false);
    assert_eq!(left.outcome, Some(Err(QuiesceError::GoneDuring)));
    assert!(!left.fail_device);
}
