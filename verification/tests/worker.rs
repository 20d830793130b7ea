use cdc_core::events::Region;
use cdc_core::pending_ranges::PendingDeleteRanges;
use cdc_core::worker::{
    check_abort, conclude_job, data_key, delete_batches, enc_end_key, enc_start_key,
    ingest_maybe_stall, start_job, ApplyOutcome, CfPressure, DestroyDecision, JobStatus,
    RegionWorker, Task,
};

fn insert_range(
    pending_delete_ranges: &mut PendingDeleteRanges,
    id: u64,
    s: &str,
    e: &str,
    timeout: u64,
) {
    pending_delete_ranges.insert(id, s.as_bytes(), e.as_bytes(), timeout);
}

#[test]
fn test_pending_delete_ranges() {
    let mut pending_delete_ranges = PendingDeleteRanges::new();
    let delay = 100;
    let id = 0;

    let mut now = 0;
    let timeout = now + delay;
    insert_range(&mut pending_delete_ranges, id, "a", "c", timeout);
    insert_range(&mut pending_delete_ranges, id, "m", "n", timeout);
    insert_range(&mut pending_delete_ranges, id, "x", "z", timeout);
    insert_range(&mut pending_delete_ranges, id + 1, "f", "i", timeout);
    insert_range(&mut pending_delete_ranges, id + 1, "p", "t", timeout);
    assert_eq!(pending_delete_ranges.len(), 5);

    now += delay / 2;

    //  a____c    f____i    m____n    p____t    x____z
    //              g___________________q
    // when we want to insert [g, q), we first extract overlap ranges,
    // which are [f, i), [m, n), [p, t)
    let timeout = now + delay;
    let overlap_ranges = pending_delete_ranges.drain_overlap_ranges(b"g", b"q");
    assert_eq!(
        overlap_ranges,
        [
            (id + 1, b"f".to_vec(), b"i".to_vec()),
            (id, b"m".to_vec(), b"n".to_vec()),
            (id + 1, b"p".to_vec(), b"t".to_vec()),
        ]
    );
    assert_eq!(pending_delete_ranges.len(), 2);
    insert_range(&mut pending_delete_ranges, id + 2, "g", "q", timeout);
    assert_eq!(pending_delete_ranges.len(), 3);

    now += delay / 2;

    // at t1, [a, c) and [x, z) will timeout
    let ranges = pending_delete_ranges.timeout_ranges(now);
    assert_eq!(
        ranges,
        [(id, b"a".to_vec(), b"c".to_vec()), (id, b"x".to_vec(), b"z".to_vec())]
    );
    for (_, start_key, _) in ranges {
        pending_delete_ranges.remove(&start_key);
    }
    assert_eq!(pending_delete_ranges.len(), 1);

    now += delay / 2;

    // at t2, [g, q) will timeout
    let ranges = pending_delete_ranges.timeout_ranges(now);
    assert_eq!(ranges, [(id + 2, b"g".to_vec(), b"q".to_vec())]);
    for (_, start_key, _) in ranges {
        pending_delete_ranges.remove(&start_key);
    }
    assert_eq!(pending_delete_ranges.len(), 0);
}

#[test]
fn test_pending_applies() {
    // Five apply tasks are held while level-0 pressure keeps the
    // admission gate closed; once compaction clears it, they drain in
    // FIFO order and each job runs to completion.
    let mut worker = RegionWorker::new(0);
    for region_id in 1..=5u64 {
        worker.enqueue_apply(Task::Apply { region_id, status: JobStatus::Pending });
    }

    // level 0 count above the slow-down trigger for the default family
    let mut cfs = vec![
        CfPressure { plain_file: false, level0_files: 6, slowdown_trigger: 5 },
        CfPressure { plain_file: false, level0_files: 0, slowdown_trigger: 5 },
        CfPressure { plain_file: true, level0_files: 9, slowdown_trigger: 5 },
    ];
    assert!(ingest_maybe_stall(&cfs));
    assert!(worker.next_apply(ingest_maybe_stall(&cfs)).is_none());
    assert!(worker.has_pending_applies());

    // compaction drops level 0 to zero; the queue drains in order
    cfs[0].level0_files = 0;
    assert!(!ingest_maybe_stall(&cfs));
    let mut drained = Vec::new();
    while let Some(task) = worker.next_apply(ingest_maybe_stall(&cfs)) {
        match task {
            Task::Apply { region_id, status } => {
                let status = start_job(status);
                assert_eq!(status, JobStatus::Running);
                assert!(check_abort(status).is_ok());
                let status = conclude_job(status, ApplyOutcome::Success);
                assert_eq!(status, JobStatus::Finished);
                drained.push(region_id);
            },
            other => panic!("expected an apply task, but got {:?}", other.describe()),
        }
    }
    assert_eq!(drained, vec![1, 2, 3, 4, 5]);
    assert!(!worker.has_pending_applies());
}

#[test]
fn test_job_status_protocol() {
    // A cancelling job is observed at the abort checkpoint and ends
    // cancelled; a failure ends failed.
    assert_eq!(start_job(JobStatus::Cancelling), JobStatus::Cancelling);
    let st = JobStatus::Cancelling;
    assert!(check_abort(st).is_err());
    assert_eq!(conclude_job(st, ApplyOutcome::Aborted), JobStatus::Cancelled);
    assert_eq!(conclude_job(JobStatus::Running, ApplyOutcome::Failed), JobStatus::Failed);
}

#[test]
fn test_destroy_decisions() {
    // Without a configured delay the range is cleaned at once; with a
    // delay it enters the quarantine after evicting overlaps.
    let mut immediate = RegionWorker::new(0);
    assert!(matches!(
        immediate.on_destroy(1, b"a", b"c", 1_000),
        DestroyDecision::CleanNow
    ));
    assert_eq!(immediate.delete_ranges().len(), 0);

    let mut deferred = RegionWorker::new(50);
    match deferred.on_destroy(1, b"a", b"c", 1_000) {
        DestroyDecision::Deferred { overlaps } => assert!(overlaps.is_empty()),
        DestroyDecision::CleanNow => panic!("expected a deferred decision"),
    }
    assert_eq!(deferred.delete_ranges().len(), 1);
    match deferred.on_destroy(2, b"b", b"d", 1_010) {
        DestroyDecision::Deferred { overlaps } => {
            assert_eq!(overlaps, vec![(1, b"a".to_vec(), b"c".to_vec())]);
        },
        DestroyDecision::CleanNow => panic!("expected a deferred decision"),
    }
    assert_eq!(deferred.delete_ranges().len(), 1);
    // The deferred range falls due after the delay and is then removed.
    assert!(deferred.stale_ranges(1_059).is_empty());
    let due = deferred.stale_ranges(1_060);
    assert_eq!(due, vec![(2, b"b".to_vec(), b"d".to_vec())]);
    assert!(deferred.remove_range(b"b").is_some());
    assert_eq!(deferred.delete_ranges().len(), 0);
}

#[test]
fn test_data_keys() {
    assert_eq!(data_key(b"k"), b"zk".to_vec());
    let mut region = Region::new(1);
    region.start_key = b"a".to_vec();
    assert_eq!(enc_start_key(&region), b"za".to_vec());
    // an empty end key means the end of the keyspace
    assert_eq!(enc_end_key(&region), vec![b'z' + 1]);
    region.end_key = b"b".to_vec();
    assert_eq!(enc_end_key(&region), b"zb".to_vec());
}

#[test]
fn test_delete_batches() {
    let keys: Vec<Vec<u8>> = (0..7u8).map(|i| vec![i]).collect();
    let batches = delete_batches(keys.clone(), 3);
    assert_eq!(batches.len(), 3);
    assert_eq!(batches[0].len(), 3);
    assert_eq!(batches[1].len(), 3);
    assert_eq!(batches[2].len(), 1);
    let flat: Vec<Vec<u8>> = batches.into_iter().flatten().collect();
    assert_eq!(flat, keys);
}

#[test]
fn test_task_describe() {
    let t = Task::destroy(7, b"\x01".to_vec(), b"\x02".to_vec());
    assert_eq!(t.describe(), "Destroy 7 [01, 02)");
    let g = Task::Gen { region_id: 12, last_applied_index_term: 3 };
    assert_eq!(g.describe(), "Snap gen for 12");
}
