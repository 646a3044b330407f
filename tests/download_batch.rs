use index_crawler::{DownloadData, DownloadScheduler, FailureCause, FileOutcome};
use std::collections::HashMap;

fn entries(n: usize) -> Vec<DownloadData> {
    (0..n)
        .map(|i| DownloadData {
            url: format!("http://host/f{i}.bin"),
            output_dir: format!("f{i}.bin"),
        })
        .collect()
}

/// Plays the caller's part for one run: files already in `disk` are not
/// fetched; `failing` names the URLs whose every attempt fails. Returns
/// the number of fetches and the largest number of slots held at once.
fn run(
    batch: &[DownloadData],
    limit: usize,
    disk: &mut HashMap<String, u64>,
    failing: &[String],
) -> (DownloadScheduler, usize, usize) {
    let mut scheduler = DownloadScheduler::new(&batch.to_vec(), limit);
    let mut fetches = 0;
    let mut peak = 0;
    let mut held = Vec::new();
    loop {
        while let Some(job) = scheduler.dispatch() {
            held.push(job);
            peak = peak.max(scheduler.in_flight());
        }
        if held.is_empty() {
            break;
        }
        // Complete the oldest transfer, then refill.
        let job = held.remove(0);
        let on_disk = disk.get(&job.path).copied();
        if scheduler.start(job.index, on_disk) {
            fetches += 1;
            if failing.contains(&job.url) {
                assert!(scheduler.finish(job.index, None));
            } else {
                let size = 100 + job.index as u64;
                disk.insert(job.path.clone(), size);
                assert!(scheduler.finish(job.index, Some(size)));
            }
        }
    }
    assert!(scheduler.is_done());
    (scheduler, fetches, peak)
}

fn successes(scheduler: &DownloadScheduler, n: usize) -> Vec<usize> {
    (0..n)
        .filter(|&i| {
            matches!(
                scheduler.outcome(i),
                Some(FileOutcome::Downloaded(_)) | Some(FileOutcome::AlreadyPresent(_))
            )
        })
        .collect()
}

#[test]
fn slots_never_exceed_limit() {
    let batch = entries(1000);
    for limit in [1usize, 5, 100] {
        let mut disk = HashMap::new();
        let (scheduler, fetches, peak) = run(&batch, limit, &mut disk, &[]);
        assert_eq!(peak, limit);
        assert_eq!(fetches, 1000);
        assert_eq!(successes(&scheduler, 1000).len(), 1000);
    }
}

#[test]
fn second_run_fetches_nothing() {
    let batch = entries(20);
    let mut disk = HashMap::new();
    let (first, fetches, _) = run(&batch, 3, &mut disk, &[]);
    assert_eq!(fetches, 20);
    let (second, refetches, _) = run(&batch, 3, &mut disk, &[]);
    assert_eq!(refetches, 0);
    assert_eq!(successes(&first, 20), successes(&second, 20));
    assert_eq!(first.downloaded_bytes(), second.downloaded_bytes());
    assert_eq!(second.outcome(4), Some(FileOutcome::AlreadyPresent(104)));
}

#[test]
fn one_failing_file_leaves_the_rest() {
    let batch = entries(10);
    let mut disk = HashMap::new();
    let failing = vec!["http://host/f3.bin".to_string()];
    let (scheduler, fetches, _) = run(&batch, 4, &mut disk, &failing);
    assert_eq!(fetches, 10);
    assert_eq!(scheduler.outcome(3), Some(FileOutcome::Failed(FailureCause::Transfer)));
    let ok = successes(&scheduler, 10);
    assert_eq!(ok.len(), 9);
    assert!(!ok.contains(&3));
    let expected: u64 = (0..10u64).filter(|&i| i != 3).map(|i| 100 + i).sum();
    assert_eq!(scheduler.downloaded_bytes(), expected);
}

#[test]
fn paths_are_decoded_and_checked_up_front() {
    let batch = vec![
        DownloadData { url: "http://host/a".to_string(), output_dir: "my%20file.txt".to_string() },
        DownloadData { url: "http://host/b".to_string(), output_dir: "bad%FF.txt".to_string() },
        DownloadData { url: "http://host/c".to_string(), output_dir: "sub/..%2F..%2Fetc".to_string() },
        DownloadData { url: "http://host/d".to_string(), output_dir: "/etc/passwd".to_string() },
    ];
    let mut scheduler = DownloadScheduler::new(&batch, 2);
    assert_eq!(scheduler.outcome(1), Some(FileOutcome::Failed(FailureCause::UndecodablePath)));
    assert_eq!(scheduler.outcome(2), Some(FileOutcome::Failed(FailureCause::UnsafePath)));
    assert_eq!(scheduler.outcome(3), Some(FileOutcome::Failed(FailureCause::UnsafePath)));
    let job = scheduler.dispatch().unwrap();
    assert_eq!(job.index, 0);
    assert_eq!(job.path, "my file.txt");
    assert!(scheduler.dispatch().is_none());
    assert!(scheduler.start(job.index, None));
    assert!(scheduler.finish(job.index, Some(3)));
    assert!(!scheduler.finish(job.index, Some(3)));
    assert!(scheduler.is_done());
    assert_eq!(scheduler.downloaded_bytes(), 3);
}

#[test]
fn reports_for_idle_files_change_nothing() {
    let batch = entries(2);
    let mut scheduler = DownloadScheduler::new(&batch, 1);
    assert!(!scheduler.start(0, None));
    assert!(!scheduler.finish(1, Some(9)));
    assert_eq!(scheduler.outcome(0), Some(FileOutcome::Pending));
    assert_eq!(scheduler.outcome(7), None);
    assert_eq!(scheduler.downloaded_bytes(), 0);
}

#[test]
fn empty_batch_is_done_at_once() {
    let mut scheduler = DownloadScheduler::new(&Vec::new(), 1);
    assert!(scheduler.is_done());
    assert!(scheduler.dispatch().is_none());
}

#[test]
fn directories_are_decoded_before_creation() {
    let dirs = vec!["sub".to_string(), "my%20dir/inner".to_string()];
    assert_eq!(
        index_crawler::plan_directories(&dirs),
        Ok(vec!["sub".to_string(), "my dir/inner".to_string()])
    );
    let bad = vec!["ok".to_string(), "..".to_string(), "x%FF".to_string()];
    assert_eq!(index_crawler::plan_directories(&bad), Err(1));
    assert_eq!(index_crawler::plan_directories(&vec!["x%FF".to_string()]), Err(0));
}
