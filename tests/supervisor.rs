use topic_consumer::consumer::StopReason;
use topic_consumer::supervisor::{Supervisor, TaskEnd};

fn queues(v: &[&str]) -> Vec<String> {
    v.iter().map(|s| s.to_string()).collect()
}

#[test]
fn outcome_waits_for_every_join() {
    let mut s = Supervisor::new(&queues(&["a", "b", "c"]));
    assert_eq!(s.len(), 3);
    assert_eq!(s.cancel_all(), vec![0, 1, 2]);
    assert!(s.outcome().is_none());
    assert!(s.record_end(0, TaskEnd::Stopped(StopReason::Cancelled)));
    assert!(s.record_end(1, TaskEnd::Stopped(StopReason::Cancelled)));
    assert!(s.outcome().is_none());
    assert!(!s.all_joined());
    assert!(s.record_end(2, TaskEnd::Stopped(StopReason::Cancelled)));
    assert!(s.all_joined());
    let r = s.outcome().unwrap();
    assert!(r.is_clean());
}

#[test]
fn one_failure_is_reported_and_others_joined() {
    let mut s = Supervisor::new(&queues(&["a", "b", "c"]));
    assert!(s.record_end(1, TaskEnd::Stopped(StopReason::ChannelClosed)));
    assert_eq!(s.cancel_all(), vec![0, 2]);
    assert!(s.record_end(0, TaskEnd::Stopped(StopReason::Cancelled)));
    assert!(s.record_end(2, TaskEnd::Aborted));
    let r = s.outcome().unwrap();
    assert!(!r.is_clean());
    assert_eq!(r.failed, queues(&["b", "c"]));
}

#[test]
fn cancel_all_tells_each_task_once() {
    let mut s = Supervisor::new(&queues(&["a", "b"]));
    assert_eq!(s.cancel_all(), vec![0, 1]);
    assert_eq!(s.cancel_all(), Vec::<usize>::new());
}

#[test]
fn record_end_refuses_bad_index_and_second_join() {
    let mut s = Supervisor::new(&queues(&["a"]));
    assert!(!s.record_end(5, TaskEnd::Aborted));
    assert!(s.record_end(0, TaskEnd::Stopped(StopReason::Cancelled)));
    assert!(!s.record_end(0, TaskEnd::Aborted));
    assert!(s.outcome().unwrap().is_clean());
}
