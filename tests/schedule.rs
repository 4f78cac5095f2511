use east_online_server::schedule::{Schedule, ScheduleQueue};

#[test]
fn pops_in_order_of_due_time() {
    let mut q = ScheduleQueue::new();
    q.push(Schedule::new("late", 30));
    q.push(Schedule::new("early", 10));
    q.push(Schedule::new("middle", 20));
    assert_eq!(q.first_due(), Some(10));
    assert_eq!(q.pop().map(|s| s.job), Some("early"));
    assert_eq!(q.pop().map(|s| s.job), Some("middle"));
    assert_eq!(q.pop().map(|s| s.job), Some("late"));
    assert!(q.pop().is_none());
}

#[test]
fn equal_due_times_keep_push_order() {
    let mut q = ScheduleQueue::new();
    q.push(Schedule::instant("first", 5));
    q.push(Schedule::instant("second", 5));
    q.push(Schedule::instant("third", 5));
    assert_eq!(q.take_due(5), Some("first"));
    assert_eq!(q.take_due(5), Some("second"));
    assert_eq!(q.take_due(5), Some("third"));
}

#[test]
fn empty_queue_has_nothing_due() {
    let mut q: ScheduleQueue<u8> = ScheduleQueue::new();
    assert!(!q.is_first_due(u64::MAX));
    assert_eq!(q.first_due(), None);
    assert_eq!(q.take_due(u64::MAX), None);
    assert_eq!(q.len(), 0);
}

#[test]
fn future_job_is_not_due() {
    let mut q = ScheduleQueue::new();
    q.push(Schedule::new(1u8, 100));
    assert!(!q.is_first_due(99));
    assert_eq!(q.take_due(99), None);
    assert_eq!(q.len(), 1);
    assert!(q.is_first_due(100));
    assert_eq!(q.take_due(100), Some(1));
}

#[test]
fn past_due_job_goes_before_new_work() {
    let mut q = ScheduleQueue::new();
    q.push(Schedule::new("overdue", 10));
    for now in 50..60u64 {
        q.push(Schedule::instant("fresh", now));
        if now == 50 {
            assert_eq!(q.take_due(now), Some("overdue"));
        }
    }
    assert_eq!(q.len(), 10);
}
