//! End-to-end runs of the core against the simulated device.

use frame_pacer::run_scenario;
use frame_pacer::CoreError;
use frame_pacer::PacerPhase;

#[test]
fn ten_submissions_depth_three() {
    // Ten submissions through a ring of three slots: every counter created is
    // destroyed, and the waits round-robin over the slots.
    let stats = run_scenario(3, 10, None);
    assert_eq!(stats.error, None);
    assert_eq!(stats.created, 10);
    assert_eq!(stats.destroyed, 10);
    assert_eq!(stats.leaked, 0);
    // 10 iterations over 3 slots: ceil(10/3) waits on slot 0, floor(10/3) on
    // the others.
    assert_eq!(stats.fence_waits, vec![4, 3, 3]);
    assert_eq!(stats.pacer.submitted, 10);
    assert!(matches!(stats.pacer.phase, PacerPhase::AwaitFence));
    assert_eq!(stats.pacer.slot, 10 % 3);
}

#[test]
fn every_wait_count_within_one_of_the_others() {
    let stats = run_scenario(3, 10, None);
    let max = *stats.fence_waits.iter().max().unwrap();
    let min = *stats.fence_waits.iter().min().unwrap();
    assert!(max == (10 + 3 - 1) / 3);
    assert!(min == 10 / 3);
    let total: usize = stats.fence_waits.iter().sum();
    assert_eq!(total, 10);
}

#[test]
fn depth_one_serializes() {
    let stats = run_scenario(1, 5, None);
    assert_eq!(stats.created, 5);
    assert_eq!(stats.destroyed, 5);
    assert_eq!(stats.leaked, 0);
    assert_eq!(stats.fence_waits, vec![5]);
}

#[test]
fn zero_submissions() {
    let stats = run_scenario(3, 0, None);
    assert_eq!(stats.error, None);
    assert_eq!(stats.created, 0);
    assert_eq!(stats.destroyed, 0);
    assert_eq!(stats.leaked, 0);
    assert_eq!(stats.fence_waits, vec![0, 0, 0]);
}

#[test]
fn failed_submission_terminates_without_corrupting_ring_state() {
    // The device rejects the sixth submission. The pacer halts with the
    // SubmissionError; the five submissions before it were all reclaimed; the
    // counter of the failed one is the only thing left over; and the ring
    // bookkeeping still points at the slot the failure happened on.
    let stats = run_scenario(3, 10, Some(5));
    assert_eq!(stats.error, Some(CoreError::SubmissionError));
    assert_eq!(stats.created, 6);
    assert_eq!(stats.destroyed, 5);
    assert_eq!(stats.leaked, 1);
    assert!(matches!(stats.pacer.phase, PacerPhase::Halted));
    assert_eq!(stats.pacer.submitted, 5);
    assert_eq!(stats.pacer.slot, 5 % 3);
    assert_eq!(stats.pacer.depth, 3);
}

#[test]
fn failure_on_first_submission() {
    let stats = run_scenario(2, 4, Some(0));
    assert_eq!(stats.error, Some(CoreError::SubmissionError));
    assert_eq!(stats.created, 1);
    assert_eq!(stats.destroyed, 0);
    assert_eq!(stats.leaked, 1);
    assert_eq!(stats.pacer.submitted, 0);
    assert_eq!(stats.pacer.slot, 0);
}

#[test]
fn failure_index_past_the_run_changes_nothing() {
    let stats = run_scenario(3, 4, Some(9));
    assert_eq!(stats.error, None);
    assert_eq!(stats.created, 4);
    assert_eq!(stats.destroyed, 4);
    assert_eq!(stats.leaked, 0);
}
