use git_master::app_state::{GitMasterApp, RepoSelection};
use git_master::layout::LogViewMode;
use git_master::models::{
    FileStatusSummary, LogEntry, RemoteInfo, RemoteStatus, RepoDetail, RepoInfo, SubmoduleInfo,
};
use git_master::view_tree::{build_view_tree, ViewNode};

fn find<'a>(node: &'a ViewNode, id: &str) -> Option<&'a ViewNode> {
    if node.id.as_deref() == Some(id) {
        return Some(node);
    }
    node.children.iter().find_map(|child| find(child, id))
}

fn texts(node: &ViewNode) -> Vec<String> {
    node.children.iter().filter_map(|child| child.text.clone()).collect()
}

#[test]
fn snapshot_builds_a_view_tree_without_accessing_live_ui_state() {
    let app = GitMasterApp::new();

    let tree = app.test_view_tree_snapshot().build();

    assert_eq!(tree.node_type, "window");
    assert_eq!(tree.id.as_deref(), Some("root"));
    assert!(!tree.children.is_empty());
}

fn sample_app() -> GitMasterApp {
    let mut app = GitMasterApp::new();
    app.begin_scan("/repos".to_string());
    app.apply_scan(
        "/repos",
        vec![RepoInfo {
            name: "alpha".to_string(),
            path: "/repos/alpha".to_string(),
            is_dirty: true,
            current_branch: "main".to_string(),
            submodules: vec![SubmoduleInfo {
                remote_statuses: Vec::new(),
                name: "lib".to_string(),
                path: "/repos/alpha/lib".to_string(),
                relative_path: "lib".to_string(),
                url: None,
                is_initialized: false,
                is_dirty: false,
                current_branch: "HEAD detached".to_string(),
            }],
            remote_statuses: vec![RemoteStatus { name: "origin".to_string(), counts: Some((1, 2)) }],
        }],
    );
    app
}

#[test]
fn the_top_bar_and_repository_rows_show_the_state() {
    let mut app = sample_app();
    app.toggle_repo_expanded(0);
    let tree = build_view_tree(&app);
    let bar = find(&tree, "top-bar").unwrap();
    assert_eq!(texts(bar)[0], "/repos");
    assert!(find(&tree, "fetch-all-btn").unwrap().interactive);
    let row = find(&tree, "repo-0").unwrap();
    assert_eq!(texts(row), ["alpha", "Branch: main", "●", "origin ↑1 ↓2"]);
    let sub = find(&tree, "repo-0-submodule-0").unwrap();
    assert_eq!(texts(sub), ["lib", "HEAD detached", "!"]);
    assert!(find(&tree, "detail-panel").is_none());
    assert!(find(&tree, "context-menu").is_none());
}

#[test]
fn the_detail_panel_follows_the_selection_and_tab() {
    let mut app = sample_app();
    app.begin_select(0);
    let tree = build_view_tree(&app);
    let content = find(&tree, "detail-content").unwrap();
    assert_eq!(texts(content), ["Loading…"]);
    let detail = RepoDetail {
        path: "/repos/alpha".to_string(),
        current_branch: "main".to_string(),
        branches: vec!["main".to_string()],
        remotes: vec![
            RemoteInfo { name: "origin".to_string(), url: Some("git@host:a.git".to_string()) },
            RemoteInfo { name: "backup".to_string(), url: None },
        ],
        head_labels: vec![("abcdef0123".to_string(), vec!["main".to_string()])],
        file_status: FileStatusSummary { new_files: 1, modified: 2, deleted: 0, renamed: 0, conflicted: 3 },
    };
    let entry = LogEntry {
        full_hash: "abcdef0123".to_string(),
        hash: "abcdef0".to_string(),
        parent_hashes: Vec::new(),
        author: "Ann".to_string(),
        date: "2026-01-01 10:00".to_string(),
        message: "Start".to_string(),
    };
    app.apply_detail(RepoSelection::Repo(0), Some(detail), None, vec![entry], None);
    let tree = build_view_tree(&app);
    let info = find(&tree, "info-content").unwrap();
    assert_eq!(
        texts(info),
        [
            "Path: /repos/alpha",
            "Branch: main",
            "Remotes: origin (git@host:a.git), backup (no URL)",
            "File Status: 1 new, 2 modified, 0 deleted, 0 renamed, 3 conflicted",
        ]
    );
    app.set_tab(git_master::app_state::DetailTab::GitLog);
    let tree = build_view_tree(&app);
    assert!(find(&tree, "log-branch-main").is_some());
    assert!(find(&tree, "log-remote-backup-reset").is_some());
    let list = find(&tree, "log-list").unwrap();
    assert_eq!(texts(&list.children[0]), ["abcdef0", "Start", "main", "Ann — 2026-01-01 10:00"]);
    app.set_log_view_mode(LogViewMode::Canvas);
    let tree = build_view_tree(&app);
    let canvas = find(&tree, "commit-canvas").unwrap();
    assert_eq!(texts(canvas), ["Commit graph is unavailable."]);
}

#[test]
fn an_uninitialized_submodule_offers_initialization() {
    let mut app = sample_app();
    app.open_context_menu(0);
    let request = app
        .prepare_test_command(git_master::rpc::TestCommand::SelectSubmodule { repo_index: 0, submodule_index: 0 })
        .unwrap();
    app.apply_detail(request.selection, None, request.submodule_detail, Vec::new(), None);
    let tree = build_view_tree(&app);
    let info = find(&tree, "submodule-info-content").unwrap();
    assert_eq!(texts(info)[2], "URL: (none)");
    assert!(find(&tree, "init-submodule-btn").unwrap().interactive);
    assert!(find(&tree, "ctx-open-terminal").is_some());
}
