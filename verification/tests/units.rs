//! The components one at a time: counter completion, the worker's sweeps, the
//! channel, the device model, and the pacer's state machine.

use frame_pacer::counter_completed;
use frame_pacer::ChannelModel;
use frame_pacer::CoreError;
use frame_pacer::Counter;
use frame_pacer::FramePacer;
use frame_pacer::PacerEvent;
use frame_pacer::PacerPhase;
use frame_pacer::PacerStep;
use frame_pacer::ReclamationWorker;
use frame_pacer::SimDevice;

fn counter(id: u64) -> Counter {
    Counter { id, initial: 0, target: 1337 }
}

#[test]
fn completion_is_progress_past_the_initial_value() {
    let c = counter(0);
    assert!(!counter_completed(&c, 0));
    assert!(counter_completed(&c, 1));
    assert!(counter_completed(&c, 1337));
    let later = Counter { id: 1, initial: 10, target: 20 };
    assert!(!counter_completed(&later, 10));
    assert!(counter_completed(&later, 11));
}

#[test]
fn sweep_destroys_exactly_the_advanced_counters() {
    let mut w = ReclamationWorker::new();
    w.receive(counter(0));
    w.receive(counter(1));
    w.receive(counter(2));
    assert_eq!(w.live_len(), 3);
    // Counters 0 and 2 have advanced; counter 1 has not.
    let gone = w.sweep(&vec![1337, 0, 5]);
    assert_eq!(gone.len(), 2);
    assert_eq!(gone[0].id, 0);
    assert_eq!(gone[1].id, 2);
    assert_eq!(w.live_len(), 1);
    assert_eq!(w.live_at(0).id, 1);
}

#[test]
fn idle_worker_destroys_nothing_and_sleeps_bounded() {
    // Several sweep cycles with nothing received: no false destroys, and a
    // fixed non-zero pause between cycles instead of a busy spin.
    let mut w = ReclamationWorker::new();
    for _ in 0..5 {
        let gone = w.sweep(&Vec::new());
        assert_eq!(gone.len(), 0);
        assert_eq!(w.live_len(), 0);
        let pause = w.sweep_pause_ms();
        assert!(pause > 0);
        assert!(pause <= 10);
    }
}

#[test]
fn unadvanced_counters_survive_sweeps() {
    let mut w = ReclamationWorker::new();
    w.receive(counter(7));
    for _ in 0..3 {
        let gone = w.sweep(&vec![0]);
        assert_eq!(gone.len(), 0);
        assert_eq!(w.live_len(), 1);
    }
    let gone = w.sweep(&vec![1337]);
    assert_eq!(gone.len(), 1);
    assert_eq!(gone[0].id, 7);
    assert_eq!(w.live_len(), 0);
}

#[test]
fn send_never_fails_while_the_receiver_lives() {
    let mut chan = ChannelModel::new();
    // However much is queued, a send goes through.
    for id in 0..1000 {
        assert!(chan.send(counter(id)));
    }
    let msgs = chan.recv_all();
    assert_eq!(msgs.len(), 1000);
    for (k, c) in msgs.iter().enumerate() {
        assert_eq!(c.id, k as u64);
    }
}

#[test]
fn send_fails_once_the_receiver_is_gone() {
    let mut chan = ChannelModel::new();
    assert!(chan.send(counter(0)));
    chan.close_receiver();
    assert!(!chan.send(counter(1)));
    // The failed send queued nothing.
    let msgs = chan.recv_all();
    assert_eq!(msgs.len(), 1);
    assert_eq!(msgs[0].id, 0);
}

#[test]
fn device_fences_start_signaled_and_cycle() {
    let mut dev = SimDevice::new(2);
    assert!(dev.fence_signaled(0));
    assert!(dev.fence_signaled(1));
    dev.reset_fence(0);
    assert!(!dev.fence_signaled(0));
    let id = dev.create_counter();
    assert_eq!(id, 0);
    assert_eq!(dev.read_counter(id), 0);
    dev.submit(0, id);
    dev.complete_oldest();
    assert!(dev.fence_signaled(0));
    assert_eq!(dev.read_counter(id), 1337);
    dev.destroy_counter(id);
}

#[test]
fn pacer_walks_one_iteration_in_order() {
    let mut p = FramePacer::new(2);
    assert_eq!(p.next_step(), PacerStep::WaitFence { slot: 0 });
    assert_eq!(p.handle(PacerEvent::WaitOk), None);
    assert_eq!(p.next_step(), PacerStep::ResetFence { slot: 0 });
    assert_eq!(p.handle(PacerEvent::ResetOk), None);
    let c = counter(0);
    assert_eq!(p.next_step(), PacerStep::CreateCounter { counter: c });
    assert_eq!(p.handle(PacerEvent::CounterCreated), None);
    assert_eq!(p.next_step(), PacerStep::SendCounter { counter: c });
    assert_eq!(p.handle(PacerEvent::SendOk), None);
    assert_eq!(p.next_step(), PacerStep::SubmitWork { slot: 0, counter: c });
    assert_eq!(p.handle(PacerEvent::SubmitOk), None);
    // The ring advanced and the next counter is fresh.
    assert_eq!(p.slot, 1);
    assert_eq!(p.submitted, 1);
    assert_eq!(p.next_step(), PacerStep::WaitFence { slot: 1 });
    assert_eq!(p.next_id, 1);
}

#[test]
fn pacer_slot_wraps_at_the_depth() {
    let mut p = FramePacer::new(2);
    for round in 0..4 {
        assert_eq!(p.slot, round % 2);
        p.handle(PacerEvent::WaitOk);
        p.handle(PacerEvent::ResetOk);
        p.handle(PacerEvent::CounterCreated);
        p.handle(PacerEvent::SendOk);
        p.handle(PacerEvent::SubmitOk);
    }
    assert_eq!(p.slot, 0);
    assert_eq!(p.submitted, 4);
}

#[test]
fn wait_timeout_is_recoverable_and_changes_nothing() {
    let mut p = FramePacer::new(3);
    let r = p.handle(PacerEvent::WaitTimedOut);
    assert_eq!(r, Some(CoreError::SyncTimeout));
    // Still waiting on the same slot: the caller decides retry or abort.
    assert!(matches!(p.phase, PacerPhase::AwaitFence));
    assert_eq!(p.slot, 0);
    assert_eq!(p.handle(PacerEvent::WaitOk), None);
}

#[test]
fn fatal_events_halt_with_their_error() {
    let mut p = FramePacer::new(3);
    assert_eq!(p.handle(PacerEvent::WaitFailed), Some(CoreError::SyncWaitError));
    assert!(matches!(p.phase, PacerPhase::Halted));
    assert_eq!(p.next_step(), PacerStep::Rest);

    let mut reset_pacer = FramePacer::new(3);
    reset_pacer.handle(PacerEvent::WaitOk);
    assert_eq!(reset_pacer.handle(PacerEvent::ResetFailed), Some(CoreError::SyncWaitError));
    assert!(matches!(reset_pacer.phase, PacerPhase::Halted));

    let mut send_pacer = FramePacer::new(3);
    send_pacer.handle(PacerEvent::WaitOk);
    send_pacer.handle(PacerEvent::ResetOk);
    send_pacer.handle(PacerEvent::CounterCreated);
    assert_eq!(send_pacer.handle(PacerEvent::SendFailed), Some(CoreError::ChannelError));
    assert!(matches!(send_pacer.phase, PacerPhase::Halted));
}

#[test]
fn submission_failure_preserves_ring_bookkeeping() {
    let mut p = FramePacer::new(3);
    // Two full iterations, then a failed submission on the third.
    for _ in 0..2 {
        p.handle(PacerEvent::WaitOk);
        p.handle(PacerEvent::ResetOk);
        p.handle(PacerEvent::CounterCreated);
        p.handle(PacerEvent::SendOk);
        p.handle(PacerEvent::SubmitOk);
    }
    p.handle(PacerEvent::WaitOk);
    p.handle(PacerEvent::ResetOk);
    p.handle(PacerEvent::CounterCreated);
    p.handle(PacerEvent::SendOk);
    let r = p.handle(PacerEvent::SubmitFailed);
    assert_eq!(r, Some(CoreError::SubmissionError));
    assert!(matches!(p.phase, PacerPhase::Halted));
    assert_eq!(p.slot, 2);
    assert_eq!(p.submitted, 2);
    assert_eq!(p.next_id, 2);
}

#[test]
fn pacer_counters_carry_the_fixed_nonzero_target() {
    let mut p = FramePacer::new(2);
    p.handle(PacerEvent::WaitOk);
    p.handle(PacerEvent::ResetOk);
    match p.next_step() {
        PacerStep::CreateCounter { counter: c } => {
            assert_eq!(c.initial, 0);
            assert!(c.target > 0);
            assert!(c.initial < c.target);
        },
        _ => panic!("expected a counter-creation step"),
    }
}
