use git_master::app_state::{GitMasterApp, RepoSelection};
use git_master::columns::branch_columns;
use git_master::layout::{build_layout, CanvasEdgeKind, CanvasNodeKind, LogViewMode};
use git_master::models::{
    CommitGraph, CommitLane, CommitLaneStatus, LogEntry, SubmoduleCommitLink,
};

fn entry(hash: &str, parents: &[&str]) -> LogEntry {
    LogEntry {
        full_hash: hash.to_string(),
        hash: hash[..7.min(hash.len())].to_string(),
        parent_hashes: parents.iter().map(|parent| (*parent).to_string()).collect(),
        author: "Developer".to_string(),
        date: "2026-01-01 10:00".to_string(),
        message: "Commit".to_string(),
    }
}

#[test]
fn forks_and_merges_use_distinct_columns() {
    let entries = vec![
        entry("merge000", &["left0000", "right000"]),
        entry("left0000", &["base0000"]),
        entry("right000", &["base0000"]),
        entry("base0000", &[]),
    ];
    let columns = branch_columns(&entries);
    assert_eq!(columns[0], columns[1]);
    assert_ne!(columns[1], columns[2]);
    assert_eq!(columns[1], columns[3]);
    let divergent = branch_columns(&vec![
        entry("local000", &["base0000"]),
        entry("remote00", &["base0000"]),
        entry("base0000", &[]),
    ]);
    assert_ne!(divergent[0], divergent[1]);
}

#[test]
fn first_parent_reclaims_its_column_when_merge_paths_converge() {
    let entries = vec![
        entry("merge000", &["left0000", "right000"]),
        entry("right000", &["base0000"]),
        entry("left0000", &["base0000"]),
        entry("base0000", &[]),
    ];

    let columns = branch_columns(&entries);

    assert_eq!(columns[0], columns[2]);
    assert_ne!(columns[1], columns[2]);
    assert_eq!(columns[2], columns[3]);
}

#[test]
fn a_linear_history_stays_in_the_first_column() {
    let entries = vec![entry("c", &["b"]), entry("b", &["a"]), entry("a", &[])];
    assert_eq!(branch_columns(&entries), vec![0, 0, 0]);
    assert_eq!(branch_columns(&Vec::new()), Vec::<usize>::new());
}

fn sample_graph() -> CommitGraph {
    CommitGraph {
        repository_path: "/repo".to_string(),
        lanes: vec![
            CommitLane {
                id: "main".to_string(),
                name: "repo".to_string(),
                relative_path: None,
                status: CommitLaneStatus::Available,
                entries: vec![entry("aaaaaaaa", &["bbbbbbbb"]), entry("bbbbbbbb", &[])],
            },
            CommitLane {
                id: "submodule:lib".to_string(),
                name: "lib".to_string(),
                relative_path: Some("lib".to_string()),
                status: CommitLaneStatus::Uninitialized,
                entries: Vec::new(),
            },
        ],
        submodule_links: vec![SubmoduleCommitLink {
            main_commit: "aaaaaaaa".to_string(),
            submodule_lane: "submodule:lib".to_string(),
            submodule_commit: "cccccccc".to_string(),
        }],
        head_labels: vec![("aaaaaaaa".to_string(), vec!["main".to_string()])],
    }
}

#[test]
fn layout_connects_parents_and_creates_missing_submodule_placeholders() {
    let graph = sample_graph();

    let layout = build_layout(&graph);

    assert_eq!(layout.nodes.len(), 4);
    assert!(!layout.lanes.iter().any(|lane| lane.id == "heads"));
    assert_eq!(layout.list.entries.len(), 2);
    let mut app = GitMasterApp::new();
    app.begin_select(0);
    app.apply_detail(
        RepoSelection::Repo(0),
        None,
        None,
        vec![entry("stale", &[])],
        Some(layout.clone()),
    );
    assert_eq!(
        app.log_entries
            .iter()
            .map(|entry| entry.full_hash.as_str())
            .collect::<Vec<_>>(),
        ["aaaaaaaa", "bbbbbbbb"]
    );
    app.set_log_view_mode(LogViewMode::Canvas);
    app.set_log_view_mode(LogViewMode::List);
    assert_eq!(app.log_entries.len(), layout.list.entries.len());
    assert!(layout.nodes.iter().any(|node| {
        node.kind == CanvasNodeKind::Head
            && node.head_labels == ["main".to_string()]
            && node.id.lane_id == "heads"
            && node.id.commit_id == "head:aaaaaaaa"
    }));
    assert!(layout.edges.iter().any(|edge| {
        edge.kind == CanvasEdgeKind::Head
            && edge.from.commit_id == "head:aaaaaaaa"
            && edge.to.commit_id == "aaaaaaaa"
    }));
    assert_eq!(
        layout
            .edges
            .iter()
            .filter(|edge| edge.kind == CanvasEdgeKind::Parent)
            .count(),
        1
    );
    assert_eq!(
        layout
            .edges
            .iter()
            .filter(|edge| edge.kind == CanvasEdgeKind::Submodule)
            .count(),
        1
    );
    assert!(layout.nodes.iter().any(|node| {
        node.id.commit_id == "cccccccc" && node.id.lane_id == "submodule:lib" && node.is_placeholder()
    }));
}

#[test]
fn cards_sit_in_their_lane_and_row() {
    let layout = build_layout(&sample_graph());
    let first = layout
        .nodes
        .iter()
        .find(|node| node.id.commit_id == "aaaaaaaa")
        .unwrap();
    let second = layout
        .nodes
        .iter()
        .find(|node| node.id.commit_id == "bbbbbbbb")
        .unwrap();
    assert_eq!(first.default_position.x, second.default_position.x);
    assert_eq!(second.default_position.y - first.default_position.y, 128);
    assert_eq!(first.width, 236);
    assert_eq!(first.height, 96);
    assert_eq!(first.short_hash(), "aaaaaaa");
    assert!(!first.is_head());
    let head = layout.nodes.iter().find(|node| node.is_head()).unwrap();
    assert_eq!(head.height, 62 + 30);
    assert_eq!(head.default_position.x + head.width + 28, first.default_position.x);
    let placeholder = layout.nodes.iter().find(|node| node.is_placeholder()).unwrap();
    assert_eq!(placeholder.short_hash(), "ccccccc");
    assert_eq!(layout.lanes.len(), 2);
    assert_eq!(layout.lanes[1].x - layout.lanes[0].x, 550);
}

#[test]
fn a_tall_head_card_pushes_the_next_one_clear() {
    let graph = CommitGraph {
        repository_path: "/repo".to_string(),
        lanes: vec![CommitLane {
            id: "main".to_string(),
            name: "repo".to_string(),
            relative_path: None,
            status: CommitLaneStatus::Available,
            entries: vec![entry("aaaaaaaa", &["bbbbbbbb"]), entry("bbbbbbbb", &[])],
        }],
        submodule_links: Vec::new(),
        head_labels: vec![
            (
                "aaaaaaaa".to_string(),
                vec!["one".to_string(), "two".to_string(), "three".to_string()],
            ),
            ("bbbbbbbb".to_string(), vec!["four".to_string()]),
        ],
    };
    let layout = build_layout(&graph);
    let head = |commit: &str| {
        layout
            .nodes
            .iter()
            .find(|node| node.is_head() && node.id.commit_id == format!("head:{commit}"))
            .unwrap()
    };
    let first = head("aaaaaaaa");
    let second = head("bbbbbbbb");
    assert_eq!(first.height, 62 + 3 * 30);
    assert_eq!(first.default_position.y, 92);
    assert_eq!(second.default_position.y, 92 + first.height + 12);
    assert_eq!(layout.lanes.len(), 1);
}

#[test]
fn lanes_sharing_an_id_take_the_columns_and_place_of_the_last() {
    let mut graph = sample_graph();
    let layout = git_master::layout::layout_if_fits(&graph).unwrap();
    assert_eq!(layout.nodes.len(), build_layout(&graph).nodes.len());
    graph.lanes[1].id = "main".to_string();
    graph.lanes[1].entries = vec![entry("d1", &["d2"]), entry("d2", &["d3"]), entry("d3", &[])];
    let layout = git_master::layout::layout_if_fits(&graph).unwrap();
    assert_eq!(layout.lanes[0].x, 310);
    assert_eq!(layout.lanes[1].x, 310 + 550);
    let card = |commit: &str| {
        layout
            .nodes
            .iter()
            .find(|node| node.id.lane_id == "main" && node.id.commit_id == commit)
            .unwrap()
            .default_position
    };
    assert_eq!(card("aaaaaaaa").x, 860);
    assert_eq!(card("d1").x, 860);
    assert_eq!(card("bbbbbbbb").y, 92 + 128);
    graph.lanes[1].entries.truncate(1);
    assert!(git_master::layout::layout_if_fits(&graph).is_none());
}

#[test]
fn every_connection_joins_two_cards() {
    let layout = build_layout(&sample_graph());
    let has = |lane: &str, commit: &str| {
        layout
            .nodes
            .iter()
            .any(|node| node.id.lane_id == lane && node.id.commit_id == commit)
    };
    assert_eq!(layout.edges.len(), 3);
    for edge in &layout.edges {
        assert!(has(&edge.from.lane_id, &edge.from.commit_id));
        assert!(has(&edge.to.lane_id, &edge.to.commit_id));
    }
}
