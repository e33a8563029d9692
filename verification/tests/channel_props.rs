use dbswitch::channel::TaskChannel;
use dbswitch::errors::BackendError;
use dbswitch::errors::ChannelError;
use dbswitch::errors::DbError;

#[test]
fn exactly_once_under_many_submissions() {
    // 10,000 submissions, each returning a unique tagged value: every tag is
    // collected exactly once, and only by its own ticket.
    let workers: usize = 8;
    let total: u64 = 10_000;
    let mut ch: TaskChannel<u64> = TaskChannel::new(workers);
    let mut tickets: Vec<u64> = Vec::new();
    for _ in 0..total {
        tickets.push(ch.submit().expect("the channel is open"));
    }
    let mut remaining = total as usize;
    while remaining > 0 {
        let mut batch: Vec<u64> = Vec::new();
        while let Some(t) = ch.start_next() {
            assert!(ch.executing_len() <= workers);
            batch.push(t);
        }
        assert!(!batch.is_empty());
        for t in batch {
            assert!(ch.complete(t, Ok(1_000_000 + t)));
            remaining -= 1;
        }
    }
    let mut seen = vec![0u32; total as usize];
    for &t in &tickets {
        match ch.collect(t) {
            Some(Ok(v)) => {
                assert_eq!(v, 1_000_000 + t);
                seen[t as usize] += 1;
            }
            _ => panic!("an outcome was lost"),
        }
        assert!(ch.collect(t).is_none());
    }
    for count in seen {
        assert_eq!(count, 1);
    }
    assert_eq!(ch.queued_len(), 0);
    assert_eq!(ch.executing_len(), 0);
    assert_eq!(ch.completed_len(), 0);
}

#[test]
fn bounded_concurrency_gauge() {
    // With 8 workers the executing gauge reaches 8 and never passes it.
    let workers: usize = 8;
    let mut ch: TaskChannel<u64> = TaskChannel::new(workers);
    for _ in 0..100 {
        ch.submit().expect("the channel is open");
    }
    let mut max_seen: usize = 0;
    let mut started: Vec<u64> = Vec::new();
    loop {
        match ch.start_next() {
            Some(t) => {
                started.push(t);
                if ch.executing_len() > max_seen {
                    max_seen = ch.executing_len();
                }
            }
            None => {
                if started.is_empty() {
                    break;
                }
                for t in started.drain(..) {
                    assert!(ch.complete(t, Ok(t)));
                }
            }
        }
    }
    assert!(max_seen <= workers);
    assert_eq!(max_seen, workers);
    assert_eq!(ch.completed_len(), 100);
}

#[test]
fn fifo_admission_order() {
    // With one worker, units of work start strictly in submission order.
    let mut ch: TaskChannel<u64> = TaskChannel::new(1);
    let mut tickets: Vec<u64> = Vec::new();
    for _ in 0..5 {
        tickets.push(ch.submit().expect("the channel is open"));
    }
    for &expected in &tickets {
        assert_eq!(ch.start_next(), Some(expected));
        assert_eq!(ch.start_next(), None);
        assert!(ch.complete(expected, Ok(expected)));
        assert_eq!(ch.collect(expected), Some(Ok(expected)));
    }
}

#[test]
fn error_passthrough_verbatim() {
    // A unit of work that fails with a backend error yields that exact error.
    let mut ch: TaskChannel<u64> = TaskChannel::new(1);
    let t = ch.submit().expect("the channel is open");
    assert_eq!(ch.start_next(), Some(t));
    assert!(ch.complete(t, Err(DbError::Backend(BackendError::Timeout))));
    match ch.collect(t) {
        Some(Err(DbError::Backend(BackendError::Timeout))) => {}
        _ => panic!("the backend error was not passed through unchanged"),
    }
}

#[test]
fn progress_while_suspended() {
    // While a slow unit of work is in flight, another logical task runs its
    // whole submission lifecycle to completion.
    let mut ch: TaskChannel<u64> = TaskChannel::new(2);
    let slow = ch.submit().expect("the channel is open");
    assert_eq!(ch.start_next(), Some(slow));
    let quick = ch.submit().expect("the channel is open");
    assert_eq!(ch.start_next(), Some(quick));
    assert!(ch.complete(quick, Ok(7)));
    assert_eq!(ch.collect(quick), Some(Ok(7)));
    assert_eq!(ch.executing_len(), 1);
    assert!(ch.complete(slow, Ok(1)));
    assert_eq!(ch.collect(slow), Some(Ok(1)));
}

#[test]
fn submit_after_shutdown_is_rejected() {
    let mut ch: TaskChannel<u64> = TaskChannel::new(2);
    let t = ch.submit().expect("the channel is open");
    ch.shutdown();
    match ch.submit() {
        Err(DbError::Channel(ChannelError::ShutDown)) => {}
        _ => panic!("a submission after shutdown must be rejected"),
    }
    // The submission admitted before shutdown still drains normally.
    assert_eq!(ch.start_next(), Some(t));
    assert!(ch.complete(t, Ok(3)));
    assert_eq!(ch.collect(t), Some(Ok(3)));
}

#[test]
fn shutdown_drains_all_in_flight() {
    // Five submissions in flight at mixed stages when shutdown is requested:
    // all five resolve, and nothing remains alive afterwards.
    let mut ch: TaskChannel<u64> = TaskChannel::new(2);
    let mut tickets: Vec<u64> = Vec::new();
    for _ in 0..5 {
        tickets.push(ch.submit().expect("the channel is open"));
    }
    assert_eq!(ch.start_next(), Some(tickets[0]));
    assert_eq!(ch.start_next(), Some(tickets[1]));
    assert!(ch.complete(tickets[1], Ok(tickets[1])));
    ch.shutdown();
    // Nothing in flight was dropped by the request.
    assert_eq!(ch.queued_len(), 3);
    assert_eq!(ch.executing_len(), 1);
    assert_eq!(ch.completed_len(), 1);
    assert!(ch.shutdown_requested());
    // Drain: run everything still owed to completion.
    assert!(ch.complete(tickets[0], Ok(tickets[0])));
    while let Some(t) = ch.start_next() {
        assert!(ch.complete(t, Ok(t)));
    }
    let mut resolved: usize = 0;
    for &t in &tickets {
        match ch.collect(t) {
            Some(Ok(v)) => {
                assert_eq!(v, t);
                resolved += 1;
            }
            _ => panic!("an in-flight submission was lost in shutdown"),
        }
    }
    assert_eq!(resolved, 5);
    assert_eq!(ch.queued_len(), 0);
    assert_eq!(ch.executing_len(), 0);
    assert_eq!(ch.completed_len(), 0);
}

#[test]
fn drain_resolves_everything() {
    // Graceful teardown: shutdown, then drain — every in-flight submission
    // resolves (success or backend error alike) and nothing stays occupied.
    let mut ch: TaskChannel<u64> = TaskChannel::new(3);
    for _ in 0..10 {
        ch.submit().expect("the channel is open");
    }
    assert!(ch.start_next().is_some());
    ch.shutdown();
    let resolved = ch.drain(|t| {
        if t % 2 == 0 {
            Ok(t)
        } else {
            Err(DbError::Backend(BackendError::Timeout))
        }
    });
    assert_eq!(resolved, 10);
    assert_eq!(ch.queued_len(), 0);
    assert_eq!(ch.executing_len(), 0);
    assert_eq!(ch.completed_len(), 0);
    assert!(ch.submit().is_err());
}

#[test]
fn collect_before_completion_finds_nothing() {
    let mut ch: TaskChannel<u64> = TaskChannel::new(1);
    let t = ch.submit().expect("the channel is open");
    assert!(ch.collect(t).is_none());
    assert_eq!(ch.start_next(), Some(t));
    assert!(ch.collect(t).is_none());
    assert!(ch.complete(t, Ok(9)));
    assert_eq!(ch.collect(t), Some(Ok(9)));
}

#[test]
fn completing_an_unknown_ticket_is_refused() {
    let mut ch: TaskChannel<u64> = TaskChannel::new(1);
    let t = ch.submit().expect("the channel is open");
    // Not started yet, and 999 was never issued: both reports are refused.
    assert!(!ch.complete(t, Ok(0)));
    assert!(!ch.complete(999, Ok(0)));
    assert_eq!(ch.completed_len(), 0);
}
