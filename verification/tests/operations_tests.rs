use git_master::app_state::{GitMasterApp, RepoSelection};
use git_master::batch::{BatchAction, BatchHost};
use git_master::models::{FileStatusSummary, RepoDetail, RepoInfo, SubmoduleInfo};
use git_master::operations::{
    log_action_command, push_command, submodule_init_command, LogAction, ResetConfirmation,
};

fn repo(name: &str, path: &str, branch: &str, submodules: Vec<SubmoduleInfo>) -> RepoInfo {
    RepoInfo {
        name: name.to_string(),
        path: path.to_string(),
        is_dirty: false,
        current_branch: branch.to_string(),
        submodules,
        remote_statuses: Vec::new(),
    }
}

fn submodule(name: &str, path: &str, relative_path: &str, initialized: bool) -> SubmoduleInfo {
    SubmoduleInfo {
        remote_statuses: Vec::new(),
        name: name.to_string(),
        path: path.to_string(),
        relative_path: relative_path.to_string(),
        url: Some("https://example.invalid/lib.git".to_string()),
        is_initialized: initialized,
        is_dirty: false,
        current_branch: "main".to_string(),
    }
}

fn detail(path: &str, current: &str, branches: &[&str]) -> RepoDetail {
    RepoDetail {
        path: path.to_string(),
        current_branch: current.to_string(),
        branches: branches.iter().map(|b| b.to_string()).collect(),
        remotes: Vec::new(),
        head_labels: Vec::new(),
        file_status: FileStatusSummary::default(),
    }
}

fn selected_app() -> GitMasterApp {
    let mut app = GitMasterApp::new();
    app.repos = vec![repo("repo", "/repos/repo", "main", Vec::new())];
    app.begin_select(0);
    app.apply_detail(
        RepoSelection::Repo(0),
        Some(detail("/repos/repo", "main", &["main", "dev"])),
        None,
        Vec::new(),
        None,
    );
    app
}

#[test]
fn branch_actions_start_only_on_a_loaded_selection() {
    let mut app = GitMasterApp::new();
    assert!(app.begin_log_action(LogAction::Pull).is_none());
    let mut app = selected_app();
    let plan = app.begin_log_action(LogAction::Checkout("dev".to_string())).unwrap();
    assert!(app.busy);
    assert_eq!(app.status_message.as_deref(), Some("Switching to dev…"));
    assert_eq!(plan.target, "/repos/repo");
    assert_eq!(plan.expected_branch, "main");
    let mut branches = plan.branches.clone();
    branches.sort();
    assert_eq!(branches, vec!["dev".to_string(), "main".to_string()]);
    assert!(app.begin_log_action(LogAction::Pull).is_none());
    app.finish_log_action(plan, Err("conflict".to_string()), None, None, None);
    assert!(!app.busy);
    assert_eq!(app.status_message.as_deref(), Some("Branch operation failed: conflict"));
    assert!(app.detail.is_none());
}

#[test]
fn branch_action_commands_refuse_a_changed_branch() {
    assert_eq!(
        log_action_command(&LogAction::Pull, &Some("main".to_string()), "main"),
        Ok(vec!["pull".to_string(), "--rebase".to_string()])
    );
    assert_eq!(
        log_action_command(&LogAction::Checkout("dev".to_string()), &Some("main".to_string()), "main"),
        Ok(vec!["checkout".to_string(), "dev".to_string()])
    );
    assert_eq!(
        log_action_command(&LogAction::Push, &Some("other".to_string()), "main"),
        Err("Branch changed; reload the repository before retrying".to_string())
    );
    assert!(log_action_command(&LogAction::Push, &None, "main").is_err());
}

#[test]
fn fetch_and_reset_report_their_progress_and_outcome() {
    let mut app = selected_app();
    let plan = app.fetch_selected_remote("origin".to_string()).unwrap();
    assert_eq!(app.status_message.as_deref(), Some("Fetching origin…"));
    assert!(app.fetch_selected_remote("origin".to_string()).is_none());
    app.finish_remote_action(plan, Ok(String::new()), None, None, Vec::new(), None);
    assert!(!app.busy);
    assert_eq!(app.status_message.as_deref(), Some("Fetch complete; Git Log refreshed"));

    let mut app = selected_app();
    let confirmation = app.request_reset("origin".to_string()).unwrap();
    assert_eq!(app.status_message.as_deref(), Some("Confirm reset to origin…"));
    assert!(app.answer_reset(confirmation, false).is_none());
    assert!(!app.busy);
    assert_eq!(app.status_message.as_deref(), Some("Remote reset cancelled"));

    let confirmation = app.request_reset("origin".to_string()).unwrap();
    let plan = app.answer_reset(confirmation, true).unwrap();
    assert!(plan.reset);
    assert_eq!(plan.branch, "main");
    assert_eq!(app.status_message.as_deref(), Some("Resetting to origin/main…"));
    app.finish_remote_action(plan, Err("dirty".to_string()), None, None, Vec::new(), None);
    assert_eq!(app.status_message.as_deref(), Some("Remote action failed: dirty"));

    let mut app = selected_app();
    let stale = ResetConfirmation {
        remote: "origin".to_string(),
        expected: Some(("/elsewhere".to_string(), "main".to_string())),
    };
    assert!(app.answer_reset(stale, true).is_none());
}

#[test]
fn pushes_check_the_upstream_and_reload_the_selected_repository() {
    let mut app = selected_app();
    let check = app.begin_push(0).unwrap();
    assert_eq!(app.status_message.as_deref(), Some("Checking upstream…"));
    assert!(app.push_preflight_running);
    app.upstream_missing(&check.branch);
    assert_eq!(app.status_message.as_deref(), Some("No upstream branch for 'main'"));
    let plan = app.begin_push_upload(check.repo_index, check.path.clone(), true);
    assert_eq!(push_command(&plan), vec!["push", "-u", "origin", "main"]);
    let reload = app.finish_push(plan, Ok(String::new()), None).unwrap();
    assert_eq!(app.status_message.as_deref(), Some("Push done"));
    assert!(app.loading_detail);
    assert!(!app.busy);
    app.apply_reloaded_detail(reload, Some(detail("/repos/repo", "main", &["main"])), Vec::new(), None);
    assert!(!app.loading_detail);
    assert!(app.begin_push(7).is_none());
}

#[test]
fn submodule_initialization_reloads_the_still_selected_submodule() {
    let mut app = GitMasterApp::new();
    app.repos = vec![repo(
        "repo",
        "/repos/repo",
        "main",
        vec![submodule("lib", "/repos/repo/lib", "lib", false)],
    )];
    assert!(app.begin_init_submodule().is_none());
    app.begin_select_submodule(0, 0, "lib".to_string());
    let plan = app.begin_init_submodule().unwrap();
    assert_eq!(submodule_init_command(&plan.relative_path), vec!["submodule", "update", "--init", "--", "lib"]);
    let refreshed = repo(
        "repo",
        "/repos/repo",
        "main",
        vec![submodule("lib", "/repos/repo/lib", "lib", true)],
    );
    let reload = app.finish_init_submodule(plan, Ok(String::new()), Some(refreshed)).unwrap();
    assert_eq!(app.status_message.as_deref(), Some("Submodule initialized"));
    assert_eq!(reload.path, "/repos/repo/lib");
    assert!(reload.submodule_detail.unwrap().is_initialized);
    assert!(!app.busy);
}

#[test]
fn branch_history_reloads_for_the_selection() {
    let mut app = selected_app();
    assert!(app.toggle_log_branch("dev".to_string()));
    let reload = app.begin_branch_history_reload().unwrap();
    assert_eq!(app.status_message.as_deref(), Some("Loading 2 branch history…"));
    assert_eq!(reload.path, "/repos/repo");
    app.apply_branch_history(RepoSelection::Repo(1), None);
    assert_eq!(app.status_message.as_deref(), Some("Loading 2 branch history…"));
    app.apply_branch_history(reload.selection, None);
    assert_eq!(app.status_message.as_deref(), Some("Git Log updated"));
    assert!(app.log_entries.is_empty());
}

#[test]
fn batch_runs_refresh_the_listed_repositories() {
    let mut app = GitMasterApp::new();
    assert!(app.begin_batch(BatchAction::Fetch).is_none());
    app.begin_scan("/repos".to_string());
    app.apply_scan("/repos", vec![
        repo("a", "/repos/a", "main", Vec::new()),
        repo("b", "/repos/b", "main", Vec::new()),
    ]);
    app.begin_select(1);
    let run = app.begin_batch(BatchAction::SwitchMain).unwrap();
    assert_eq!(app.status_message.as_deref(), Some("Switching all projects to main branch…"));
    assert_eq!(run.host.paths(), &vec!["/repos/a".to_string(), "/repos/b".to_string()]);
    let mut result = run.host.start();
    result.record_switch("/repos/a".to_string(), true, Some(repo("a", "/repos/a", "main", Vec::new())));
    result.record_switch("/repos/b".to_string(), false, Some(repo("b", "/repos/b", "dev", Vec::new())));
    let reloads = app.finish_batch(run.parent, result, "/logs/ops.log");
    assert!(!app.busy);
    assert_eq!(
        app.status_message.as_deref(),
        Some("Switch to Main: 1 succeeded, 1 failed. Log: /logs/ops.log")
    );
    assert_eq!(app.repos[1].current_branch, "dev");
    assert_eq!(reloads.len(), 1);
    assert_eq!(reloads[0].repo_index, 1);
}

#[test]
fn batch_results_for_another_directory_only_end_the_run() {
    let mut app = GitMasterApp::new();
    app.begin_scan("/old".to_string());
    app.apply_scan("/old", vec![repo("a", "/old/a", "main", Vec::new())]);
    let run = app.begin_batch(BatchAction::Fetch).unwrap();
    app.busy = false;
    app.begin_scan("/new".to_string());
    app.busy = true;
    let result = BatchHost::new(Vec::new(), BatchAction::Fetch).start();
    let reloads = app.finish_batch(run.parent, result, "log");
    assert!(reloads.is_empty());
    assert!(!app.busy);
    assert_ne!(app.status_message.as_deref(), Some("Fetch All: 0 succeeded, 0 failed, 0 projects without remotes"));
}

#[test]
fn failing_to_open_a_location_is_reported() {
    let mut app = GitMasterApp::new();
    app.open_location_failed(true, "not found");
    assert_eq!(app.status_message.as_deref(), Some("Cannot open terminal: not found"));
    app.open_location_failed(false, "denied");
    assert_eq!(app.status_message.as_deref(), Some("Cannot open directory: denied"));
}

#[test]
fn canvas_initialization_applies_to_the_selected_target() {
    let mut app = GitMasterApp::new();
    app.repos = vec![repo(
        "repo",
        "/repos/repo",
        "main",
        vec![submodule("lib", "/repos/repo/lib", "lib", false)],
    )];
    app.begin_select(0);
    assert!(app.begin_canvas_submodule_init("/elsewhere", "lib".to_string()).is_none());
    let plan = app.begin_canvas_submodule_init("/repos/repo", "lib".to_string()).unwrap();
    assert_eq!(app.status_message.as_deref(), Some("Initializing lib…"));
    assert!(app.busy);
    app.finish_canvas_submodule_init(plan, Ok(String::new()), None, None, Vec::new(), None);
    assert!(!app.busy);
    assert_eq!(app.status_message.as_deref(), Some("Submodule initialized; canvas refreshed"));
}
