use mmq::worker_count;

#[test]
fn requested_jobs_win() {
    assert_eq!(worker_count(Some(3), Some(8)), 3);
    assert_eq!(worker_count(Some(3), None), 3);
}

#[test]
fn defaults_to_cpus_then_one() {
    assert_eq!(worker_count(None, Some(8)), 8);
    assert_eq!(worker_count(None, None), 1);
}
