use git_master::batch::{BatchAction, BatchHost};

#[test]
fn fetch_tally_counts_each_remote_and_repositories_without_remotes() {
    let host = BatchHost::new(
        vec!["invalid".to_string(), "first".to_string(), "empty".to_string(), "second".to_string()],
        BatchAction::Fetch,
    );
    assert_eq!(host.paths().len(), 4);
    assert_eq!(host.action(), BatchAction::Fetch);
    let mut result = host.start();
    result.record_fetch("invalid".to_string(), None, None);
    result.record_fetch("first".to_string(), Some(vec![false, true, true]), None);
    result.record_fetch("empty".to_string(), Some(Vec::new()), None);
    result.record_fetch("second".to_string(), Some(vec![true]), None);
    assert_eq!((result.succeeded, result.failed, result.skipped), (3, 2, 1));
    assert_eq!(result.refreshed.len(), 4);
    assert_eq!(
        result.refreshed.iter().map(|(path, _)| path.as_str()).collect::<Vec<_>>(),
        ["invalid", "first", "empty", "second"]
    );
    assert_eq!(
        result.message("/logs/git-master.log"),
        "Fetch All: 3 succeeded, 2 failed, 1 projects without remotes. Log: /logs/git-master.log"
    );
}

#[test]
fn switch_tally_and_message_without_failures() {
    let host = BatchHost::new(vec!["a".to_string(), "b".to_string()], BatchAction::SwitchMain);
    let mut result = host.start();
    result.record_switch("a".to_string(), true, None);
    result.record_switch("b".to_string(), true, None);
    assert_eq!((result.succeeded, result.failed, result.skipped), (2, 0, 0));
    assert_eq!(result.message("/logs/x.log"), "Switch to Main: 2 succeeded, 0 failed");
}

#[test]
fn switch_failures_point_to_the_log() {
    let host = BatchHost::new(vec!["empty".to_string(), "first".to_string()], BatchAction::SwitchMain);
    let mut result = host.start();
    result.record_switch("empty".to_string(), false, None);
    result.record_switch("first".to_string(), true, None);
    assert_eq!((result.succeeded, result.failed), (1, 1));
    assert_eq!(
        result.message("log.txt"),
        "Switch to Main: 1 succeeded, 1 failed. Log: log.txt"
    );
}

#[test]
fn large_counts_are_printed_in_full() {
    let mut result = BatchHost::new(Vec::new(), BatchAction::Fetch).start();
    result.succeeded = 1234567;
    result.skipped = 10;
    assert_eq!(
        result.message("unused"),
        "Fetch All: 1234567 succeeded, 0 failed, 10 projects without remotes"
    );
}
