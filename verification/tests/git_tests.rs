use git_master::git_commands::{
    checkout_branch, commit_details_command, fetch_command, git_result, pull_rebase, push, push_set_upstream,
    reset_commands,
};
use git_master::models::{find_labels, group_head_labels, RemoteStatus};
use git_master::repo_logic::{
    branch_config_key, branch_label, file_status_summary, first_remote_url, is_dirty, local_branch_ref,
    log_entry, main_branch, remote_branch_ref, remote_head_ref, switch_to_main_command,
    upstream_branch_for, STATUS_CONFLICTED, STATUS_IGNORED, STATUS_INDEX_MODIFIED, STATUS_INDEX_NEW,
    STATUS_WT_DELETED, STATUS_WT_MODIFIED, STATUS_WT_NEW, STATUS_WT_RENAMED,
};

fn strings(v: &[&str]) -> Vec<String> {
    v.iter().map(|s| s.to_string()).collect()
}

#[test]
fn branch_commands_are_plain_argument_lists() {
    assert_eq!(checkout_branch("feature/x"), strings(&["checkout", "feature/x"]));
    assert_eq!(pull_rebase(), strings(&["pull", "--rebase"]));
    assert_eq!(push(), strings(&["push"]));
    assert_eq!(push_set_upstream("main"), strings(&["push", "-u", "origin", "main"]));
}

#[test]
fn git_output_is_trimmed_and_chosen_by_exit_status() {
    assert_eq!(git_result(true, b"  done\n", b"warning"), Ok("done".to_string()));
    assert_eq!(git_result(false, b"out", b"\tfatal: no remote\n"), Err("fatal: no remote".to_string()));
    assert_eq!(git_result(true, b"", b""), Ok(String::new()));
    assert_eq!(git_result(true, b"a\xffb\n", b""), Ok("a\u{fffd}b".to_string()));
}

#[test]
fn commit_details_accept_only_object_ids() {
    let args = commit_details_command("ABCdef1").unwrap();
    assert_eq!(args[1], "show");
    assert_eq!(args[14], "abcdef1000000000000000000000000000000000");
    assert_eq!(args[15], "--");
    assert_eq!(args.len(), 16);
    assert!(commit_details_command("not-a-hash").is_err());
    assert!(commit_details_command("").is_err());
    assert!(commit_details_command(&"a".repeat(41)).is_err());
    assert_eq!(
        commit_details_command("not-a-hash"),
        Err("unable to parse OID - contains invalid characters; class=Invalid (3)".to_string())
    );
    assert_eq!(commit_details_command(""), Err("unable to parse OID - too short; class=Invalid (3)".to_string()));
    assert_eq!(
        commit_details_command(&"a".repeat(41)),
        Err("unable to parse OID - too long; class=Invalid (3)".to_string())
    );
    assert_eq!(
        commit_details_command(&"é".repeat(21)),
        Err("unable to parse OID - too long; class=Invalid (3)".to_string())
    );
}

#[test]
fn references_and_configuration_keys() {
    assert_eq!(remote_head_ref("origin"), "refs/remotes/origin/HEAD");
    assert_eq!(remote_branch_ref("upstream", "main"), "refs/remotes/upstream/main");
    assert_eq!(branch_config_key("feature", "merge"), "branch.feature.merge");
    assert_eq!(local_branch_ref("dev"), "refs/heads/dev");
    assert_eq!(branch_label(Some("main".to_string())), "main");
    assert_eq!(branch_label(None), "HEAD detached");
}

#[test]
fn upstream_names_apply_only_to_their_remote() {
    let origin = Some("origin".to_string());
    let merge = Some("refs/heads/main".to_string());
    assert_eq!(upstream_branch_for("feature", &origin, &merge, "origin"), "main");
    assert_eq!(upstream_branch_for("feature", &origin, &merge, "upstream"), "feature");
    assert_eq!(upstream_branch_for("feature", &None, &merge, "origin"), "feature");
    assert_eq!(
        upstream_branch_for("feature", &origin, &Some("refs/tags/v1".to_string()), "origin"),
        "feature"
    );
}

fn head(remote: &str, target: Option<&str>) -> (String, Option<String>) {
    (remote.to_string(), target.map(str::to_string))
}

#[test]
fn main_branch_prefers_origin_then_agreement_then_local_names() {
    let heads = vec![
        head("upstream", Some("refs/remotes/upstream/trunk")),
        head("origin", Some("refs/remotes/origin/main")),
    ];
    assert_eq!(
        main_branch(&heads, false, false),
        Ok(("main".to_string(), Some("origin".to_string())))
    );
    let heads = vec![
        head("a", Some("refs/remotes/a/dev")),
        head("b", None),
        head("c", Some("refs/remotes/c/dev")),
    ];
    assert_eq!(main_branch(&heads, true, false), Ok(("dev".to_string(), Some("a".to_string()))));
    let heads = vec![head("a", Some("refs/remotes/a/dev")), head("b", Some("refs/remotes/b/main"))];
    assert_eq!(main_branch(&heads, true, true), Ok(("main".to_string(), None)));
    assert_eq!(main_branch(&heads, false, true), Ok(("master".to_string(), None)));
    assert_eq!(
        main_branch(&heads, false, false),
        Err("Cannot determine main branch (no remote HEAD or local main/master)".to_string())
    );
    let heads = vec![head("a", Some("refs/remotes/other/main"))];
    assert_eq!(main_branch(&heads, false, true), Ok(("master".to_string(), None)));
    assert_eq!(main_branch(&Vec::new(), true, true), Ok(("main".to_string(), None)));
    assert_eq!(
        main_branch(&Vec::new(), false, false),
        Err("Cannot determine main branch (no remote HEAD or local main/master)".to_string())
    );
}

#[test]
fn switching_to_main_uses_the_local_branch_or_tracks_the_remote() {
    assert_eq!(switch_to_main_command("main", &None, true), Ok(strings(&["switch", "--", "main"])));
    assert_eq!(
        switch_to_main_command("main", &Some("origin".to_string()), false),
        Ok(strings(&["switch", "--track", "-c", "main", "refs/remotes/origin/main"]))
    );
    assert_eq!(
        switch_to_main_command("main", &None, false),
        Err("Local main branch main is unavailable".to_string())
    );
}

#[test]
fn the_shown_url_is_origins_or_the_first_available() {
    assert_eq!(
        first_remote_url(Some("git@o".to_string()), vec![Some("x".to_string())]),
        Some("git@o".to_string())
    );
    assert_eq!(
        first_remote_url(None, vec![None, Some("second".to_string()), Some("third".to_string())]),
        Some("second".to_string())
    );
    assert_eq!(first_remote_url(None, vec![None]), None);
}

#[test]
fn file_status_counts_each_category_of_each_entry() {
    let statuses = vec![
        STATUS_WT_NEW,
        STATUS_INDEX_NEW | STATUS_WT_MODIFIED,
        STATUS_INDEX_MODIFIED,
        STATUS_WT_DELETED,
        STATUS_WT_RENAMED,
        STATUS_CONFLICTED,
        STATUS_IGNORED,
    ];
    let summary = file_status_summary(&statuses);
    assert_eq!(
        (summary.new_files, summary.modified, summary.deleted, summary.renamed, summary.conflicted),
        (2, 2, 1, 1, 1)
    );
    assert!(is_dirty(&statuses));
    assert!(!is_dirty(&vec![STATUS_IGNORED, STATUS_IGNORED]));
    assert!(!is_dirty(&Vec::new()));
}

#[test]
fn log_entries_abbreviate_and_keep_the_first_line() {
    let entry = log_entry(
        "0123456789abcdef".to_string(),
        vec!["fedcba".to_string()],
        None,
        0,
        Some("Subject\r\nBody"),
    );
    assert_eq!(entry.hash, "0123456");
    assert_eq!(entry.author, "unknown");
    assert_eq!(entry.date, "1970-01-01 00:00");
    assert_eq!(entry.message, "Subject");
    assert_eq!(entry.parent_hashes, vec!["fedcba".to_string()]);
    let entry = log_entry("abc".to_string(), Vec::new(), Some("Ann"), 86400 + 3600 + 60, None);
    assert_eq!(entry.hash, "abc");
    assert_eq!(entry.author, "Ann");
    assert_eq!(entry.date, "1970-01-02 01:01");
    assert_eq!(entry.message, "");
}

#[test]
fn remote_labels_show_counts_or_dashes() {
    let status = RemoteStatus { name: "origin".to_string(), counts: Some((2, 10)) };
    assert_eq!(status.label(), "origin ↑2 ↓10");
    let status = RemoteStatus { name: "mirror".to_string(), counts: None };
    assert_eq!(status.label(), "mirror ↑— ↓—");
}

#[test]
fn unicode_white_space_is_trimmed_and_other_characters_kept() {
    let out = "\u{3000}\u{85}\u{2028} done \u{a0}\u{200a}\u{202f}\u{205f}\u{1680}\u{b}".as_bytes();
    assert_eq!(git_result(true, out, b""), Ok("done".to_string()));
    let kept = "\u{200b}x\u{180e}".as_bytes();
    assert_eq!(git_result(false, b"", kept), Err("\u{200b}x\u{180e}".to_string()));
}

#[test]
fn any_counted_change_makes_the_tree_dirty() {
    for status in [
        STATUS_WT_NEW,
        STATUS_INDEX_NEW,
        STATUS_INDEX_MODIFIED,
        STATUS_WT_MODIFIED,
        STATUS_WT_DELETED,
        STATUS_WT_RENAMED,
        STATUS_CONFLICTED,
    ] {
        let statuses = vec![STATUS_IGNORED, status];
        let summary = file_status_summary(&statuses);
        let total = summary.new_files + summary.modified + summary.deleted + summary.renamed + summary.conflicted;
        assert_eq!(total, 1);
        assert!(is_dirty(&statuses));
    }
    let summary = file_status_summary(&vec![STATUS_IGNORED]);
    assert_eq!(summary.new_files + summary.modified + summary.deleted + summary.renamed + summary.conflicted, 0);
}

#[test]
fn head_labels_list_each_commit_once() {
    let heads = vec![
        ("c1".to_string(), "main".to_string()),
        ("c2".to_string(), "dev".to_string()),
        ("c1".to_string(), "release".to_string()),
    ];
    let table = group_head_labels(&heads);
    assert_eq!(
        table,
        vec![
            ("c1".to_string(), vec!["main".to_string(), "release".to_string()]),
            ("c2".to_string(), vec!["dev".to_string()]),
        ]
    );
    assert_eq!(find_labels(&table, &"c2".to_string()), vec!["dev".to_string()]);
    assert!(find_labels(&table, &"c3".to_string()).is_empty());
    assert!(group_head_labels(&Vec::new()).is_empty());
}

#[test]
fn fetch_and_reset_command_lines() {
    assert_eq!(fetch_command("origin"), strings(&["fetch", "--prune", "--", "origin"]));
    assert_eq!(
        reset_commands(false, "origin", "main"),
        Ok(vec![
            strings(&["fetch", "--prune", "--", "origin"]),
            strings(&["reset", "--hard", "refs/remotes/origin/main"]),
        ])
    );
    let refused = reset_commands(true, "origin", "main").unwrap_err();
    assert!(refused.contains("uncommitted"));
}

#[test]
fn commit_times_follow_the_proleptic_calendar() {
    let date = |seconds: i64| log_entry("c".to_string(), Vec::new(), None, seconds, None).date;
    assert_eq!(date(-1), "1969-12-31 23:59");
    assert_eq!(date(951782400), "2000-02-29 00:00");
    assert_eq!(date(253402300800), "+10000-01-01 00:00");
    assert_eq!(date(-62167305600), "-0001-12-31 00:00");
    assert_eq!(date(i64::MAX), "");
    assert_eq!(date(i64::MIN), "");
}
