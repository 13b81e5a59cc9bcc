use meow_engine::timers::TimerQueue;

fn pump(queue: &mut TimerQueue, advance_ms: u64, max_tasks: usize) -> (Vec<u64>, usize, bool, usize) {
    queue.advance_clock(advance_ms);
    let mut fired = Vec::new();
    while fired.len() < max_tasks {
        match queue.take_due() {
            Some(id) => fired.push(id),
            None => break,
        }
    }
    let report = queue.report(advance_ms, fired.len(), max_tasks, Vec::new());
    assert_eq!(report.advanced_ms, advance_ms);
    (fired, report.tasks_run, report.budget_exhausted, report.pending_timers)
}

#[test]
fn timers_run_by_due_time_then_registration_within_the_budget() {
    let mut queue = TimerQueue::new();
    let timeout = queue.schedule(5, false);
    let interval = queue.schedule(2, true);
    assert_eq!((timeout, interval), (1, 2));
    assert!(queue.has_pending_timers());

    let (fired, tasks, exhausted, pending) = pump(&mut queue, 2, 8);
    assert_eq!(fired, vec![interval]);
    assert_eq!((tasks, exhausted, pending), (1, false, 2));

    queue.advance_clock(3);
    assert_eq!(queue.clock_ms(), 5);
    assert_eq!(queue.take_due(), Some(interval));
    queue.cancel(interval);
    assert_eq!(queue.take_due(), Some(timeout));
    assert_eq!(queue.take_due(), None);
    assert_eq!(queue.pending_timers(), 0);
    assert!(!queue.has_pending_timers());

    for _ in 0..3 {
        queue.schedule(0, false);
    }
    let (fired, tasks, exhausted, pending) = pump(&mut queue, 0, 2);
    assert_eq!(fired, vec![3, 4]);
    assert_eq!((tasks, exhausted, pending), (2, true, 1));
}

#[test]
fn one_shot_timers_fire_once_and_intervals_repeat() {
    let mut queue = TimerQueue::new();
    let once = queue.schedule(0, false);
    let every = queue.schedule(0, true);
    queue.advance_clock(3);
    assert_eq!(queue.take_due(), Some(once));
    // A repeating timer waits at least one millisecond, so it is due at 1, 2 and 3.
    assert_eq!(queue.take_due(), Some(every));
    assert_eq!(queue.take_due(), Some(every));
    assert_eq!(queue.take_due(), Some(every));
    assert_eq!(queue.take_due(), None);
    assert_eq!(queue.pending_timers(), 1);
    queue.cancel(once);
    assert_eq!(queue.pending_timers(), 1);
    queue.cancel(every);
    assert_eq!(queue.pending_timers(), 0);
}

#[test]
fn the_clock_saturates_and_cancelled_timers_never_run() {
    let mut queue = TimerQueue::new();
    let late = queue.schedule(u64::MAX, false);
    let soon = queue.schedule(1, false);
    queue.cancel(soon);
    queue.advance_clock(u64::MAX);
    queue.advance_clock(10);
    assert_eq!(queue.clock_ms(), u64::MAX);
    assert_eq!(queue.take_due(), Some(late));
    assert_eq!(queue.take_due(), None);
}
