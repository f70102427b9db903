use git_master::app_state::{DetailTab, GitMasterApp, RepoSelection, TestDetailResult};
use git_master::layout::LogViewMode;
use git_master::models::{FileStatusSummary, LogEntry, RepoDetail, RepoInfo, SubmoduleInfo};
use git_master::rpc::TestCommand;

fn repo(name: &str, path: &str, submodules: Vec<SubmoduleInfo>) -> RepoInfo {
    RepoInfo {
        name: name.to_string(),
        path: path.to_string(),
        is_dirty: false,
        current_branch: "main".to_string(),
        submodules,
        remote_statuses: Vec::new(),
    }
}

fn submodule(name: &str, path: &str, relative_path: &str) -> SubmoduleInfo {
    SubmoduleInfo {
        remote_statuses: Vec::new(),
        name: name.to_string(),
        path: path.to_string(),
        relative_path: relative_path.to_string(),
        url: None,
        is_initialized: true,
        is_dirty: false,
        current_branch: "main".to_string(),
    }
}

fn detail(current: &str, branches: &[&str]) -> RepoDetail {
    RepoDetail {
        path: "/repos/repo".to_string(),
        current_branch: current.to_string(),
        branches: branches.iter().map(|b| b.to_string()).collect(),
        remotes: Vec::new(),
        head_labels: Vec::new(),
        file_status: FileStatusSummary::default(),
    }
}

fn entry(hash: &str) -> LogEntry {
    LogEntry {
        full_hash: hash.to_string(),
        hash: hash.to_string(),
        parent_hashes: Vec::new(),
        author: "Developer".to_string(),
        date: "2026-01-01 10:00".to_string(),
        message: "Commit".to_string(),
    }
}

#[test]
fn repo_refresh_ignores_results_for_a_replaced_repo() {
    let mut app = GitMasterApp::new();
    app.repos = vec![repo("current", "/repos/current", Vec::new())];

    app.apply_repo_refresh(
        0,
        "/repos/previous",
        Some(repo("stale", "/repos/previous", Vec::new())),
    );

    assert_eq!(app.repos[0].name, "current");
    assert_eq!(app.repos[0].path, "/repos/current");
}

#[test]
fn begin_scan_cancels_push_preflight() {
    let mut app = GitMasterApp::new();
    app.busy = true;
    app.status_message = Some("Checking upstream…".to_string());
    app.push_preflight_running = true;

    app.begin_scan("/repos/new-parent".to_string());

    assert!(!app.push_preflight_running);
    assert!(!app.busy);
    assert!(app.status_message.is_none());
}

#[test]
fn begin_scan_keeps_other_status_and_busy_flag() {
    let mut app = GitMasterApp::new();
    app.busy = true;
    app.status_message = Some("Pushing main…".to_string());
    app.push_preflight_running = true;
    app.repos = vec![repo("old", "/old/repo", Vec::new())];
    app.begin_select(0);

    app.begin_scan("/repos/new-parent".to_string());

    assert!(!app.push_preflight_running);
    assert!(app.busy);
    assert_eq!(app.status_message.as_deref(), Some("Pushing main…"));
    assert!(app.repos.is_empty());
    assert!(app.selected.is_none());
    assert!(app.scanning);
    assert_eq!(app.parent_dir.as_deref(), Some("/repos/new-parent"));
}

#[test]
fn repo_refresh_reconciles_submodule_selection_by_relative_path() {
    let mut app = GitMasterApp::new();
    app.repos = vec![repo(
        "repo",
        "/repos/repo",
        vec![
            submodule("first", "/repos/repo/first", "first"),
            submodule("target", "/repos/repo/target", "target"),
        ],
    )];
    app.selected = Some(RepoSelection::Submodule {
        repo_index: 0,
        submodule_index: 1,
        relative_path: "target".to_string(),
    });

    app.apply_repo_refresh(
        0,
        "/repos/repo",
        Some(repo(
            "repo",
            "/repos/repo",
            vec![
                submodule("target", "/repos/repo/target", "target"),
                submodule("first", "/repos/repo/first", "first"),
            ],
        )),
    );

    assert_eq!(
        app.selected,
        Some(RepoSelection::Submodule {
            repo_index: 0,
            submodule_index: 0,
            relative_path: "target".to_string(),
        })
    );
    assert_eq!(app.selected_submodule(), Some((0, 0, "target".to_string())));
}

#[test]
fn repo_refresh_drops_a_selection_whose_submodule_is_gone() {
    let mut app = GitMasterApp::new();
    app.repos = vec![repo(
        "repo",
        "/repos/repo",
        vec![submodule("gone", "/repos/repo/gone", "gone")],
    )];
    app.begin_select_submodule(0, 0, "gone".to_string());

    app.apply_repo_refresh(0, "/repos/repo", Some(repo("repo", "/repos/repo", Vec::new())));

    assert!(app.selected.is_none());
    assert!(!app.loading_detail);
    assert_eq!(app.selected_submodule(), None);
}

#[test]
fn test_rpc_selection_prepares_background_detail_work() {
    let mut app = GitMasterApp::new();
    app.repos = vec![repo("repo", "/repos/repo", Vec::new())];

    let request = app.prepare_test_command(TestCommand::SelectRepo(0));

    assert!(request.is_some());
    assert!(app.loading_detail);
    assert_eq!(app.selected, Some(RepoSelection::Repo(0)));
}

#[test]
fn test_rpc_submodule_canvas_uses_the_selected_submodule_path() {
    let mut app = GitMasterApp::new();
    app.repos = vec![repo(
        "repo",
        "/repos/repo",
        vec![submodule("lib", "/repos/repo/lib", "lib")],
    )];

    let request = app
        .prepare_test_command(TestCommand::SelectSubmodule {
            repo_index: 0,
            submodule_index: 0,
        })
        .unwrap();

    assert_eq!(request.graph_path, Some("/repos/repo/lib".to_string()));
}

#[test]
fn test_commands_for_missing_rows_change_nothing() {
    let mut app = GitMasterApp::new();
    app.repos = vec![repo("repo", "/repos/repo", Vec::new())];
    assert!(app.prepare_test_command(TestCommand::SelectRepo(3)).is_none());
    assert!(app
        .prepare_test_command(TestCommand::SelectSubmodule { repo_index: 0, submodule_index: 0 })
        .is_none());
    assert!(app.selected.is_none());
    assert!(!app.loading_detail);
}

#[test]
fn test_commands_switch_tabs_views_and_rows() {
    let mut app = GitMasterApp::new();
    assert!(app.prepare_test_command(TestCommand::SetTab("log".to_string())).is_none());
    assert_eq!(app.active_tab, DetailTab::GitLog);
    app.prepare_test_command(TestCommand::SetTab("unknown".to_string()));
    assert_eq!(app.active_tab, DetailTab::GitLog);
    app.prepare_test_command(TestCommand::SetTab("info".to_string()));
    assert_eq!(app.active_tab, DetailTab::Info);
    app.prepare_test_command(TestCommand::SetLogView("canvas".to_string()));
    assert_eq!(app.log_view_mode, LogViewMode::Canvas);
    app.prepare_test_command(TestCommand::ToggleRepo(2));
    assert!(app.expanded_repos.contains(&2));
    app.prepare_test_command(TestCommand::ToggleRepo(2));
    assert!(!app.expanded_repos.contains(&2));
}

#[test]
fn stale_detail_results_are_ignored() {
    let mut app = GitMasterApp::new();
    app.repos = vec![
        repo("one", "/repos/one", Vec::new()),
        repo("two", "/repos/two", Vec::new()),
    ];
    app.begin_select(0);
    app.begin_select(1);
    app.apply_detail(RepoSelection::Repo(0), Some(detail("main", &["main"])), None, vec![entry("a")], None);
    assert!(app.detail.is_none());
    assert!(app.loading_detail);
    app.apply_test_detail(TestDetailResult {
        selection: RepoSelection::Repo(1),
        detail: Some(detail("dev", &["dev"])),
        submodule_detail: None,
        log_entries: vec![entry("b")],
        commit_canvas_layout: None,
    });
    assert_eq!(app.detail.as_ref().unwrap().current_branch, "dev");
    assert_eq!(app.log_entries.len(), 1);
    assert_eq!(app.log_entries[0].full_hash, "b");
    assert!(!app.loading_detail);
}

#[test]
fn stale_scan_results_are_ignored() {
    let mut app = GitMasterApp::new();
    app.begin_scan("/first".to_string());
    app.begin_scan("/second".to_string());
    app.apply_scan("/first", vec![repo("a", "/first/a", Vec::new())]);
    assert!(app.repos.is_empty());
    assert!(app.scanning);
    app.apply_scan("/second", vec![repo("b", "/second/b", Vec::new())]);
    assert_eq!(app.repos.len(), 1);
    assert!(!app.scanning);
}

#[test]
fn toggling_a_row_twice_restores_it() {
    let mut app = GitMasterApp::new();
    app.toggle_repo_expanded(1);
    app.toggle_repo_expanded(4);
    assert!(app.expanded_repos.contains(&1));
    app.toggle_repo_expanded(1);
    assert!(!app.expanded_repos.contains(&1));
    assert!(app.expanded_repos.contains(&4));
}

#[test]
fn commit_text_for_a_closed_commit_is_ignored() {
    let mut app = GitMasterApp::new();
    app.open_commit_details("/repo".to_string(), "aaaa".to_string());
    app.open_commit_details("/repo".to_string(), "bbbb".to_string());
    app.apply_commit_text("/repo", "aaaa", Ok("old".to_string()));
    assert!(app.commit_text.is_none());
    app.apply_commit_text("/repo", "bbbb", Err("broken".to_string()));
    assert_eq!(app.commit_text, Some(Err("broken".to_string())));
    app.close_commit_details();
    assert!(app.selected_commit.is_none());
    assert!(app.commit_text.is_none());
    assert!(!app.commit_running);
}

#[test]
fn default_branches_are_the_current_one_and_main_or_master() {
    let set = GitMasterApp::default_log_visible_branches(&detail("feature", &["feature", "main", "master"]));
    assert_eq!(set.len(), 2);
    assert!(set.contains("feature"));
    assert!(set.contains("main"));
    assert!(!set.contains("master"));
    let set = GitMasterApp::default_log_visible_branches(&detail("HEAD detached", &["master"]));
    assert_eq!(set.len(), 1);
    assert!(set.contains("master"));
}

#[test]
fn the_last_visible_branch_cannot_be_hidden() {
    let mut app = GitMasterApp::new();
    app.detail = Some(detail("main", &["main", "dev"]));
    assert!(!app.toggle_log_branch("main".to_string()));
    assert_eq!(
        app.status_message.as_deref(),
        Some("At least one branch must remain visible")
    );
    assert!(app.log_visible_branches.contains("main"));
    assert!(app.toggle_log_branch("dev".to_string()));
    assert_eq!(app.log_visible_branches.len(), 2);
    assert!(app.toggle_log_branch("main".to_string()));
    assert_eq!(app.log_visible_branches.len(), 1);
    assert!(app.log_visible_branches.contains("dev"));
    app.busy = true;
    assert!(!app.toggle_log_branch("main".to_string()));
    assert!(!app.log_visible_branches.contains("main"));
}

#[test]
fn remote_actions_target_the_selected_repository_or_submodule() {
    let mut app = GitMasterApp::new();
    assert!(app.selected_remote_action_target().is_none());
    app.repos = vec![repo(
        "repo",
        "/repos/repo",
        vec![submodule("lib", "/repos/repo/lib", "lib")],
    )];
    app.begin_select(0);
    let (index, root, path, selection, sub) = app.selected_remote_action_target().unwrap();
    assert_eq!((index, root.as_str(), path.as_str()), (0, "/repos/repo", "/repos/repo"));
    assert_eq!(selection, RepoSelection::Repo(0));
    assert!(sub.is_none());
    app.begin_select_submodule(0, 0, "lib".to_string());
    let (_, root, path, _, sub) = app.selected_remote_action_target().unwrap();
    assert_eq!((root.as_str(), path.as_str()), ("/repos/repo", "/repos/repo/lib"));
    assert_eq!(sub.unwrap().name, "lib");
    app.begin_select(5);
    assert!(app.selected_remote_action_target().is_none());
}

#[test]
fn context_menu_and_status_are_plain_settings() {
    let mut app = GitMasterApp::new();
    app.open_context_menu(3);
    assert_eq!(app.context_menu.unwrap().repo_index, 3);
    app.close_context_menu();
    assert!(app.context_menu.is_none());
    app.set_status("Done".to_string());
    assert_eq!(app.status_message.as_deref(), Some("Done"));
}
