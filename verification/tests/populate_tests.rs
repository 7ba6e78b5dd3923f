use bbox_tiles::populate::{
    backoff_secs, derive_key, parse_s3_path, populate, Populator, S3PathError, TaskStep,
    MAX_RETRIES,
};
use bbox_tiles::store::ObjectStore;

#[test]
fn s3_path_parses_bucket() {
    assert_eq!(parse_s3_path(b"s3://tiles"), Ok(b"tiles".to_vec()));
}

#[test]
fn s3_path_requires_scheme() {
    assert_eq!(parse_s3_path(b"http://tiles"), Err(S3PathError::MissingScheme));
    assert_eq!(parse_s3_path(b""), Err(S3PathError::MissingScheme));
}

#[test]
fn s3_path_rejects_key_parts() {
    assert_eq!(parse_s3_path(b"s3://tiles/subdir"), Err(S3PathError::NotBucketOnly));
}

#[test]
fn key_is_path_without_source_prefix() {
    assert_eq!(derive_key(b"/srv/tiles/", b"/srv/tiles/3/1/2.mvt"), Some(b"3/1/2.mvt".to_vec()));
    assert!(derive_key(b"/srv/tiles/", b"/other/3/1/2.mvt").is_none());
}

#[test]
fn backoff_doubles_per_attempt() {
    assert_eq!(backoff_secs(0), 1);
    assert_eq!(backoff_secs(1), 2);
    assert_eq!(backoff_secs(2), 4);
    assert_eq!(backoff_secs(3), 8);
}

#[test]
fn three_failures_then_success_is_reported_successful() {
    let mut pop = Populator::new(1, 4);
    let f = pop.start_next().expect("one file to schedule");
    assert_eq!(pop.on_result(f, false), Some(TaskStep::Retry { delay_secs: 2 }));
    assert_eq!(pop.on_result(f, false), Some(TaskStep::Retry { delay_secs: 4 }));
    assert_eq!(pop.on_result(f, false), Some(TaskStep::Retry { delay_secs: 8 }));
    assert_eq!(pop.on_result(f, true), Some(TaskStep::Done));
    // the task held its permit across retries and returned it at the end
    assert_eq!(pop.permits_available(), 4);
    // nothing further to do, and nothing failed
    assert!(pop.start_next().is_none());
}

#[test]
fn four_failures_are_a_permanent_failure() {
    let mut pop = Populator::new(2, 4);
    let f = pop.start_next().expect("a file to schedule");
    for _ in 0..MAX_RETRIES {
        assert!(matches!(pop.on_result(f, false), Some(TaskStep::Retry { .. })));
    }
    assert_eq!(pop.on_result(f, false), Some(TaskStep::Failed));
    // fail-fast: the run schedules nothing further after a permanent failure
    assert!(pop.start_next().is_none());
}

#[test]
fn unknown_task_changes_nothing() {
    let mut pop = Populator::new(1, 1);
    assert_eq!(pop.on_result(7, true), None);
}

#[test]
fn in_flight_tasks_never_exceed_the_limit() {
    let limit = 2;
    let mut pop = Populator::new(10, limit);
    // a synthetic slow uploader: tasks start but do not finish
    let a = pop.start_next().expect("first permit");
    let b = pop.start_next().expect("second permit");
    assert_eq!(pop.permits_available(), 0);
    // no third task can start while both permits are held
    assert!(pop.start_next().is_none());
    // a retry keeps the permit: still nothing can start
    assert!(matches!(pop.on_result(a, false), Some(TaskStep::Retry { .. })));
    assert!(pop.start_next().is_none());
    // completing a task returns exactly one permit
    assert_eq!(pop.on_result(b, true), Some(TaskStep::Done));
    assert_eq!(pop.permits_available(), 1);
    assert!(pop.start_next().is_some());
    assert_eq!(pop.permits_available(), 0);
}

#[test]
fn ten_files_under_limit_two_arrive_intact() {
    let mut files: Vec<(Vec<u8>, Vec<u8>)> = Vec::new();
    for i in 0..10u8 {
        files.push((format!("dir/{i}.png").into_bytes(), vec![i, i + 1, i + 2]));
    }
    let mut store = ObjectStore::new();
    let pop = populate(&files, &mut store, 2);
    for (key, data) in &files {
        assert_eq!(store.get_object(key).as_ref(), Some(data));
    }
    assert!(store.get_object(b"dir/10.png").is_none());
    assert_eq!(pop.permits_available(), 2);
}
