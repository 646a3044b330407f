use index_crawler::{
    is_success_status, parse_content_length, probe_size, RetryPolicy, RetrySchedule,
};

#[test]
fn page_policy_allows_fifteen_retries() {
    let mut schedule = RetrySchedule::new(RetryPolicy::for_pages());
    let mut waits = Vec::new();
    while let Some(wait) = schedule.next_wait() {
        waits.push(wait);
    }
    assert_eq!(waits.len(), 15);
    assert!(waits[0] <= 20);
    assert!(waits.iter().all(|&w| w <= 200));
    assert!(waits[1..].iter().any(|&w| w > 20));
}

#[test]
fn probe_policy_allows_more_retries() {
    let mut schedule = RetrySchedule::new(RetryPolicy::for_size_probes());
    let mut count = 0;
    while schedule.next_wait().is_some() {
        count += 1;
    }
    assert_eq!(count, 150);
}

#[test]
fn retries_stop_only_when_the_budget_is_spent() {
    let mut schedule = RetrySchedule::new(RetryPolicy::for_pages());
    for _ in 0..15 {
        assert!(schedule.next_wait().is_some());
    }
    assert_eq!(schedule.retries, 15);
    assert_eq!(schedule.next_wait(), None);
    assert_eq!(schedule.retries, 15);
}

#[test]
fn success_statuses() {
    assert!(is_success_status(200));
    assert!(is_success_status(206));
    assert!(!is_success_status(199));
    assert!(!is_success_status(404));
    assert!(!is_success_status(503));
}

#[test]
fn content_length_values() {
    assert_eq!(parse_content_length("0"), Some(0));
    assert_eq!(parse_content_length("12345"), Some(12345));
    assert_eq!(parse_content_length("18446744073709551615"), Some(u64::MAX));
    assert_eq!(parse_content_length("18446744073709551616"), None);
    assert_eq!(parse_content_length(""), None);
    assert_eq!(parse_content_length("12a"), None);
    assert_eq!(parse_content_length(" 1"), None);
    assert_eq!(parse_content_length("+5"), Some(5));
    assert_eq!(parse_content_length("+"), None);
    assert_eq!(parse_content_length("++5"), None);
    assert_eq!(parse_content_length("-5"), None);
}

#[test]
fn probe_outcomes() {
    assert_eq!(probe_size(200, Some("42")), Some(42));
    assert_eq!(probe_size(200, Some("+5")), Some(5));
    assert_eq!(probe_size(200, Some("n/a")), Some(0));
    assert_eq!(probe_size(200, None), Some(0));
    assert_eq!(probe_size(404, Some("42")), None);
}

#[test]
fn waits_grow_then_are_jittered() {
    let mut schedule = RetrySchedule::new(RetryPolicy::for_pages());
    let waits: Vec<u64> = (0..15).map(|_| schedule.next_wait().unwrap()).collect();
    // Before jitter the waits are 10 ms, then 100 ms each; jitter scales
    // each by a factor between 0.5 and 1.5.
    assert!(waits[0] >= 4 && waits[0] <= 15);
    assert!(waits[1..].iter().all(|&w| (49..=150).contains(&w)));
    assert!(waits[1..].iter().any(|&w| w != 100));
}
