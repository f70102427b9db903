//! A description of what the window shows, as a tree of typed nodes with
//! ids, texts and whether they can be clicked; a test driver reads it
//! through the test-control endpoint.
use vstd::prelude::*;

use crate::app_state::{AppView, DetailTab, GitMasterApp};
use crate::layout::{CanvasEdgeKind, CanvasNodeKind, CommitCanvasLayout, LogViewMode};
use crate::models::{find_labels, labels_view, opt_text, remote_label, texts, FileStatusSummary,
    LogEntry, LogEntryView, RemoteInfo, RemoteStatus, RepoDetail, RepoInfo, SubmoduleDetail,
    SubmoduleDetailView, SubmoduleInfo};
use crate::text::{abbreviate, decimal, push_decimal, push_str, take_chars, text_of};

verus! {

/// One element of the window.
pub struct ViewNode {
    pub node_type: String,
    pub id: Option<String>,
    pub text: Option<String>,
    pub interactive: bool,
    pub children: Vec<ViewNode>,
}

/// The content of an element.
pub struct Node {
    pub node_type: Seq<char>,
    pub id: Option<Seq<char>>,
    pub text: Option<Seq<char>>,
    pub interactive: bool,
    pub children: Seq<Node>,
}

pub open spec fn empty_node() -> Node {
    Node { node_type: Seq::empty(), id: None, text: None, interactive: false, children: Seq::empty() }
}

pub open spec fn node_of(n: ViewNode) -> Node
    decreases n,
{
    Node {
        node_type: n.node_type@,
        id: opt_text(n.id),
        text: opt_text(n.text),
        interactive: n.interactive,
        children: Seq::new(
            n.children@.len(),
            |i: int|
                if 0 <= i < n.children@.len() {
                    node_of(n.children@[i])
                } else {
                    empty_node()
                },
        ),
    }
}

pub open spec fn nodes_of(v: Seq<ViewNode>) -> Seq<Node> {
    Seq::new(v.len(), |i: int| node_of(v[i]))
}

pub open spec fn mk(
    node_type: Seq<char>,
    id: Option<Seq<char>>,
    text: Option<Seq<char>>,
    interactive: bool,
    children: Seq<Node>,
) -> Node {
    Node { node_type, id, text, interactive, children }
}

pub open spec fn text_node(text: Seq<char>) -> Node {
    mk("text"@, None, Some(text), false, Seq::empty())
}

pub open spec fn label_node(text: Seq<char>) -> Node {
    mk("label"@, None, Some(text), false, Seq::empty())
}

pub open spec fn button(id: Seq<char>, text: Seq<char>) -> Node {
    mk("button"@, Some(id), Some(text), true, Seq::empty())
}

fn make(node_type: &str, id: Option<String>, text: Option<String>, interactive: bool, children: Vec<ViewNode>) -> (node:
    ViewNode)
    ensures
        node_of(node) == mk(node_type@, opt_text(id), opt_text(text), interactive, nodes_of(children@)),
{
    let node = ViewNode { node_type: text_of(node_type), id, text, interactive, children };
    assert(node_of(node).children =~= nodes_of(node.children@));
    node
}

fn push_node(v: &mut Vec<ViewNode>, n: ViewNode)
    ensures
        nodes_of(final(v)@) == nodes_of(old(v)@).push(node_of(n)),
{
    let ghost nv = node_of(n);
    v.push(n);
    assert(nodes_of(v@) =~= nodes_of(old(v)@).push(nv));
}

fn text_leaf(text: String) -> (node: ViewNode)
    ensures
        node_of(node) == text_node(text@),
{
    let node = make("text", None, Some(text), false, Vec::new());
    assert(nodes_of(Seq::<ViewNode>::empty()) =~= Seq::<Node>::empty());
    node
}

fn label_leaf(text: String) -> (node: ViewNode)
    ensures
        node_of(node) == label_node(text@),
{
    let node = make("label", None, Some(text), false, Vec::new());
    assert(nodes_of(Seq::<ViewNode>::empty()) =~= Seq::<Node>::empty());
    node
}

fn button_leaf(node_type: &str, id: String, text: String) -> (node: ViewNode)
    ensures
        node_of(node) == mk(node_type@, Some(id@), Some(text@), true, Seq::empty()),
{
    let node = make(node_type, Some(id), Some(text), true, Vec::new());
    assert(nodes_of(Seq::<ViewNode>::empty()) =~= Seq::<Node>::empty());
    node
}

// ---------------------------------------------------------------------------
// The top bar.

pub open spec fn top_bar(v: AppView) -> Node {
    let dir = match v.parent_dir {
        Some(p) => p,
        None => "No directory selected"@,
    };
    let status = match v.status_message {
        Some(m) => seq![mk("text"@, Some("status-message"@), Some(m), false, Seq::empty())],
        None => Seq::empty(),
    };
    mk(
        "panel"@,
        Some("top-bar"@),
        None,
        false,
        seq![text_node(dir)] + status + seq![
            button("fetch-all-btn"@, "Fetch All"@),
            button("switch-all-main-btn"@, "Switch All to Main"@),
            button("change-dir-btn"@, "Open Directory"@),
        ],
    )
}

// ---------------------------------------------------------------------------
// The repository list.

pub open spec fn dirty_mark(dirty: bool) -> Seq<char> {
    if dirty {
        "\u{25cf}"@
    } else {
        "\u{2713}"@
    }
}

pub open spec fn submodule_mark(s: SubmoduleInfo) -> Seq<char> {
    if s.is_dirty {
        "\u{25cf}"@
    } else if s.is_initialized {
        "\u{2713}"@
    } else {
        "!"@
    }
}

pub open spec fn status_nodes(statuses: Seq<RemoteStatus>) -> Seq<Node> {
    Seq::new(statuses.len(), |k: int| text_node(remote_label(statuses[k].name@, statuses[k].counts)))
}

pub open spec fn repo_item(i: nat, r: RepoInfo) -> Node {
    mk(
        "list-item"@,
        Some("repo-"@ + decimal(i)),
        None,
        true,
        seq![text_node(r.name@), text_node("Branch: "@ + r.current_branch@), text_node(dirty_mark(r.is_dirty))]
            + status_nodes(r.remote_statuses@),
    )
}

pub open spec fn submodule_item(i: nat, j: nat, s: SubmoduleInfo) -> Node {
    mk(
        "list-item"@,
        Some("repo-"@ + decimal(i) + "-submodule-"@ + decimal(j)),
        None,
        true,
        seq![text_node(s.name@), text_node(s.current_branch@), text_node(submodule_mark(s))] + status_nodes(
            s.remote_statuses@,
        ),
    )
}

pub open spec fn submodule_items(i: nat, subs: Seq<SubmoduleInfo>) -> Seq<Node> {
    Seq::new(subs.len(), |j: int| submodule_item(i, j as nat, subs[j]))
}

/// The rows of the first `n` repositories, each followed by its
/// submodules when expanded.
pub open spec fn repo_items(repos: Seq<RepoInfo>, expanded: Set<usize>, n: int) -> Seq<Node>
    decreases n,
{
    if n <= 0 || n > repos.len() {
        Seq::empty()
    } else {
        repo_items(repos, expanded, n - 1) + seq![repo_item((n - 1) as nat, repos[n - 1])] + if expanded.contains(
            (n - 1) as usize,
        ) {
            submodule_items((n - 1) as nat, repos[n - 1].submodules@)
        } else {
            Seq::empty()
        }
    }
}

pub open spec fn repo_list(v: AppView) -> Node {
    mk(
        "panel"@,
        Some("repo-list"@),
        None,
        false,
        (if v.scanning {
            seq![text_node("Scanning\u{2026}"@)]
        } else {
            Seq::empty()
        }) + repo_items(v.repos, v.expanded_repos, v.repos.len() as int),
    )
}

// ---------------------------------------------------------------------------
// The detail panel.

pub open spec fn remote_desc(r: RemoteInfo) -> Seq<char> {
    r.name@ + " ("@ + match r.url {
        Some(u) => u@,
        None => "no URL"@,
    } + ")"@
}

/// The texts joined with `sep` between neighbours.
pub open spec fn joined(parts: Seq<Seq<char>>, sep: Seq<char>) -> Seq<char>
    decreases parts.len(),
{
    if parts.len() == 0 {
        Seq::empty()
    } else if parts.len() == 1 {
        parts[0]
    } else {
        joined(parts.drop_last(), sep) + sep + parts.last()
    }
}

pub open spec fn remotes_text(remotes: Seq<RemoteInfo>) -> Seq<char> {
    if remotes.len() == 0 {
        "(none)"@
    } else {
        joined(Seq::new(remotes.len(), |k: int| remote_desc(remotes[k])), ", "@)
    }
}

pub open spec fn file_status_text(s: FileStatusSummary) -> Seq<char> {
    decimal(s.new_files as nat) + " new, "@ + decimal(s.modified as nat) + " modified, "@ + decimal(
        s.deleted as nat,
    ) + " deleted, "@ + decimal(s.renamed as nat) + " renamed, "@ + decimal(s.conflicted as nat) + " conflicted"@
}

pub open spec fn info_node(d: RepoDetail) -> Node {
    mk(
        "panel"@,
        Some("info-content"@),
        None,
        false,
        seq![
            label_node("Path: "@ + d.path@),
            label_node("Branch: "@ + d.current_branch@),
            label_node("Remotes: "@ + remotes_text(d.remotes@)),
            label_node("File Status: "@ + file_status_text(d.file_status)),
        ],
    )
}

pub open spec fn uninitialized_node(d: SubmoduleDetailView) -> Node {
    mk(
        "panel"@,
        Some("submodule-info-content"@),
        None,
        false,
        seq![
            label_node("Name: "@ + d.name),
            label_node("Path: "@ + d.path),
            label_node(
                "URL: "@ + match d.url {
                    Some(u) => u,
                    None => "(none)"@,
                },
            ),
            label_node("Status: Not initialized"@),
            button("init-submodule-btn"@, "Initialize Submodule"@),
        ],
    )
}

pub open spec fn branch_buttons(branches: Seq<Seq<char>>) -> Seq<Node> {
    Seq::new(branches.len(), |k: int| button("log-branch-"@ + branches[k], branches[k]))
}

pub open spec fn remote_action_name(k: int) -> Seq<char> {
    if k % 2 == 0 {
        "fetch"@
    } else {
        "reset"@
    }
}

pub open spec fn remote_buttons(remotes: Seq<RemoteInfo>) -> Seq<Node> {
    Seq::new(
        2 * remotes.len(),
        |k: int|
            button(
                "log-remote-"@ + remotes[k / 2].name@ + "-"@ + remote_action_name(k),
                remotes[k / 2].name@ + " "@ + remote_action_name(k),
            ),
    )
}

/// The toolbar's controls after the view switches: with a detail, its
/// branch filters, pull and push, and fetch and reset for each remote.
pub open spec fn toolbar_tail(detail: Option<RepoDetail>) -> Seq<Node> {
    match detail {
        Some(d) => seq![
            mk("panel"@, Some("log-branches-scroll"@), None, false, branch_buttons(texts(d.branches@))),
            button("log-pull"@, "Pull --rebase"@),
            button("log-push"@, "Push"@),
        ] + remote_buttons(d.remotes@),
        None => Seq::empty(),
    }
}

pub open spec fn log_toolbar(detail: Option<RepoDetail>) -> Node {
    mk(
        "panel"@,
        Some("log-view-toolbar"@),
        None,
        false,
        seq![button("log-view-list"@, "List"@), button("log-view-canvas"@, "Canvas"@)] + toolbar_tail(detail),
    )
}

pub open spec fn label_nodes(labels: Seq<Seq<char>>) -> Seq<Node> {
    Seq::new(labels.len(), |k: int| label_node(labels[k]))
}

pub open spec fn head_labels_of(detail: Option<RepoDetail>, commit: Seq<char>) -> Seq<Seq<char>> {
    match detail {
        Some(d) => crate::models::labels_for(labels_view(d.head_labels@), commit),
        None => Seq::empty(),
    }
}

pub open spec fn entry_item(detail: Option<RepoDetail>, e: LogEntryView) -> Node {
    mk(
        "list-item"@,
        None,
        None,
        false,
        seq![text_node(e.hash), text_node(e.message)] + label_nodes(head_labels_of(detail, e.full_hash)) + seq![
            text_node(e.author + " \u{2014} "@ + e.date),
        ],
    )
}

pub open spec fn log_list(v: AppView) -> Node {
    mk(
        "list"@,
        Some("log-list"@),
        None,
        false,
        Seq::new(v.log_entries.len(), |k: int| entry_item(v.detail, v.log_entries[k])),
    )
}

pub open spec fn short_id(s: Seq<char>) -> Seq<char> {
    take_chars(s, 7)
}

pub open spec fn card_node(n: crate::layout::CanvasNodeView) -> Node {
    let hash = match n.entry {
        Some(e) => e.hash,
        None => short_id(n.id.1),
    };
    mk(
        "commit-node"@,
        Some("commit-node-"@ + n.id.0 + "-"@ + n.id.1),
        None,
        true,
        seq![text_node(hash)] + match n.kind {
            CanvasNodeKind::Commit => match n.entry {
                Some(e) => seq![text_node(e.message)],
                None => Seq::empty(),
            },
            CanvasNodeKind::Placeholder => seq![text_node("Referenced commit not loaded"@)],
            CanvasNodeKind::Head => label_nodes(n.head_labels),
        },
    )
}

pub open spec fn edge_kind_name(kind: CanvasEdgeKind) -> Seq<char> {
    match kind {
        CanvasEdgeKind::Parent => "parent"@,
        CanvasEdgeKind::Submodule => "submodule"@,
        CanvasEdgeKind::Head => "head"@,
    }
}

pub open spec fn edge_node(e: crate::layout::CanvasEdgeView) -> Node {
    mk(
        "graph-edge"@,
        None,
        Some(
            e.from.0 + ":"@ + short_id(e.from.1) + " -> "@ + e.to.0 + ":"@ + short_id(e.to.1) + " ("@
                + edge_kind_name(e.kind) + ")"@,
        ),
        false,
        Seq::empty(),
    )
}

pub open spec fn canvas_node(layout: Option<CommitCanvasLayout>) -> Node {
    match layout {
        None => mk(
            "panel"@,
            Some("commit-canvas"@),
            None,
            false,
            seq![text_node("Commit graph is unavailable."@)],
        ),
        Some(l) => mk(
            "canvas"@,
            Some("commit-canvas"@),
            None,
            true,
            Seq::new(
                l@.lanes.len(),
                |k: int|
                    mk(
                        "group"@,
                        Some("commit-lane-"@ + l@.lanes[k].id),
                        Some(l@.lanes[k].name),
                        false,
                        Seq::empty(),
                    ),
            ) + Seq::new(l@.nodes.len(), |k: int| card_node(l@.nodes[k])) + Seq::new(
                l@.edges.len(),
                |k: int| edge_node(l@.edges[k]),
            ),
        ),
    }
}

pub open spec fn log_node(v: AppView) -> Node {
    mk(
        "panel"@,
        Some("log-content"@),
        None,
        false,
        seq![
            log_toolbar(v.detail),
            match v.log_view_mode {
                LogViewMode::List => log_list(v),
                LogViewMode::Canvas => canvas_node(v.commit_canvas_layout),
            },
        ],
    )
}

pub open spec fn detail_body(v: AppView) -> Node {
    if v.loading_detail {
        text_node("Loading\u{2026}"@)
    } else if v.submodule_detail is Some && !v.submodule_detail.unwrap().is_initialized {
        uninitialized_node(v.submodule_detail.unwrap()@)
    } else if v.detail is Some {
        match v.active_tab {
            DetailTab::Info => info_node(v.detail.unwrap()),
            DetailTab::GitLog => log_node(v),
        }
    } else {
        text_node("Failed to open repository."@)
    }
}

pub open spec fn tab_bar() -> Node {
    mk(
        "panel"@,
        Some("tab-bar"@),
        None,
        false,
        seq![
            mk("tab"@, Some("tab-info"@), Some("Info"@), true, Seq::empty()),
            mk("tab"@, Some("tab-log"@), Some("Git Log"@), true, Seq::empty()),
        ],
    )
}

/// The detail panel, shown while something is selected.
pub open spec fn detail_panel(v: AppView) -> Option<Node> {
    if v.selected is None {
        None
    } else {
        Some(
            mk(
                "panel"@,
                Some("detail-panel"@),
                None,
                false,
                seq![tab_bar(), mk("panel"@, Some("detail-content"@), None, false, seq![detail_body(v)])],
            ),
        )
    }
}

pub open spec fn context_menu_node(v: AppView) -> Option<Node> {
    if v.context_menu is None {
        None
    } else {
        Some(
            mk(
                "menu"@,
                Some("context-menu"@),
                None,
                false,
                seq![
                    mk("menu-item"@, Some("ctx-open-directory"@), Some("Open Directory"@), true, Seq::empty()),
                    mk("menu-item"@, Some("ctx-open-terminal"@), Some("Open Terminal Here"@), true, Seq::empty()),
                ],
            ),
        )
    }
}

pub open spec fn optional(n: Option<Node>) -> Seq<Node> {
    match n {
        Some(x) => seq![x],
        None => Seq::empty(),
    }
}

/// The whole window: top bar, main content (repository list and, with a
/// selection, the detail panel) and an open context menu.
pub open spec fn window_tree(v: AppView) -> Node {
    mk(
        "window"@,
        Some("root"@),
        None,
        false,
        seq![
            top_bar(v),
            mk("panel"@, Some("main-content"@), None, false, seq![repo_list(v)] + optional(detail_panel(v))),
        ] + optional(context_menu_node(v)),
    )
}

// ---------------------------------------------------------------------------
// Building the tree.

fn append_statuses(children: &mut Vec<ViewNode>, statuses: &Vec<RemoteStatus>)
    ensures
        nodes_of(final(children)@) == nodes_of(old(children)@) + status_nodes(statuses@),
{
    let ghost start = nodes_of(children@);
    let mut k: usize = 0;
    while k < statuses.len()
        invariant
            k <= statuses@.len(),
            nodes_of(children@) == start + status_nodes(statuses@).take(k as int),
        decreases statuses.len() - k,
    {
        let label = statuses[k].label();
        push_node(children, text_leaf(label));
        assert(status_nodes(statuses@).take(k + 1) =~= status_nodes(statuses@).take(k as int).push(
            text_node(remote_label(statuses@[k as int].name@, statuses@[k as int].counts)),
        ));
        k = k + 1;
    }
    assert(status_nodes(statuses@).take(k as int) =~= status_nodes(statuses@));
}

fn decimal_text(prefix: &str, n: usize) -> (text: String)
    ensures
        text@ == prefix@ + decimal(n as nat),
{
    let mut t = text_of(prefix);
    push_decimal(&mut t, n as u64);
    t
}

fn build_repo_item(i: usize, r: &RepoInfo) -> (node: ViewNode)
    ensures
        node_of(node) == repo_item(i as nat, *r),
{
    let mut children: Vec<ViewNode> = Vec::new();
    push_node(&mut children, text_leaf(r.name.clone()));
    let mut branch = text_of("Branch: ");
    push_str(&mut branch, r.current_branch.as_str());
    push_node(&mut children, text_leaf(branch));
    push_node(&mut children, text_leaf(text_of(if r.is_dirty { "\u{25cf}" } else { "\u{2713}" })));
    let ghost first = nodes_of(children@);
    append_statuses(&mut children, &r.remote_statuses);
    assert(first =~= seq![
        text_node(r.name@),
        text_node("Branch: "@ + r.current_branch@),
        text_node(dirty_mark(r.is_dirty)),
    ]);
    make("list-item", Some(decimal_text("repo-", i)), None, true, children)
}

fn build_submodule_item(i: usize, j: usize, s: &SubmoduleInfo) -> (node: ViewNode)
    ensures
        node_of(node) == submodule_item(i as nat, j as nat, *s),
{
    let mut children: Vec<ViewNode> = Vec::new();
    push_node(&mut children, text_leaf(s.name.clone()));
    push_node(&mut children, text_leaf(s.current_branch.clone()));
    let mark = if s.is_dirty {
        "\u{25cf}"
    } else if s.is_initialized {
        "\u{2713}"
    } else {
        "!"
    };
    push_node(&mut children, text_leaf(text_of(mark)));
    let ghost first = nodes_of(children@);
    append_statuses(&mut children, &s.remote_statuses);
    assert(first =~= seq![text_node(s.name@), text_node(s.current_branch@), text_node(submodule_mark(*s))]);
    let mut id = decimal_text("repo-", i);
    push_str(&mut id, "-submodule-");
    push_decimal(&mut id, j as u64);
    make("list-item", Some(id), None, true, children)
}

fn append_submodules(items: &mut Vec<ViewNode>, i: usize, subs: &Vec<SubmoduleInfo>)
    ensures
        nodes_of(final(items)@) == nodes_of(old(items)@) + submodule_items(i as nat, subs@),
{
    let ghost start = nodes_of(items@);
    let mut j: usize = 0;
    while j < subs.len()
        invariant
            j <= subs@.len(),
            nodes_of(items@) == start + submodule_items(i as nat, subs@).take(j as int),
        decreases subs.len() - j,
    {
        push_node(items, build_submodule_item(i, j, &subs[j]));
        assert(submodule_items(i as nat, subs@).take(j + 1) =~= submodule_items(i as nat, subs@).take(
            j as int,
        ).push(submodule_item(i as nat, j as nat, subs@[j as int])));
        j = j + 1;
    }
    assert(submodule_items(i as nat, subs@).take(j as int) =~= submodule_items(i as nat, subs@));
}

fn build_repo_list(app: &GitMasterApp) -> (node: ViewNode)
    ensures
        node_of(node) == repo_list(app@),
{
    let mut items: Vec<ViewNode> = Vec::new();
    if app.scanning {
        push_node(&mut items, text_leaf(text_of("Scanning\u{2026}")));
    }
    let ghost start = nodes_of(items@);
    let mut i: usize = 0;
    while i < app.repos.len()
        invariant
            i <= app.repos@.len(),
            nodes_of(items@) == start + repo_items(app.repos@, app.expanded_repos@, i as int),
        decreases app.repos.len() - i,
    {
        push_node(&mut items, build_repo_item(i, &app.repos[i]));
        if app.expanded_repos.contains(&i) {
            append_submodules(&mut items, i, &app.repos[i].submodules);
        }
        assert(nodes_of(items@) =~= start + repo_items(app.repos@, app.expanded_repos@, i + 1));
        i = i + 1;
    }
    assert(start =~= if app@.scanning {
        seq![text_node("Scanning\u{2026}"@)]
    } else {
        Seq::<Node>::empty()
    });
    make("panel", Some(text_of("repo-list")), None, false, items)
}

fn build_top_bar(app: &GitMasterApp) -> (node: ViewNode)
    ensures
        node_of(node) == top_bar(app@),
{
    let dir = match &app.parent_dir {
        Some(p) => p.clone(),
        None => text_of("No directory selected"),
    };
    let mut children: Vec<ViewNode> = Vec::new();
    push_node(&mut children, text_leaf(dir));
    if let Some(m) = &app.status_message {
        let status = make("text", Some(text_of("status-message")), Some(m.clone()), false, Vec::new());
        assert(nodes_of(Seq::<ViewNode>::empty()) =~= Seq::<Node>::empty());
        push_node(&mut children, status);
    }
    push_node(&mut children, button_leaf("button", text_of("fetch-all-btn"), text_of("Fetch All")));
    push_node(&mut children, button_leaf("button", text_of("switch-all-main-btn"), text_of("Switch All to Main")));
    push_node(&mut children, button_leaf("button", text_of("change-dir-btn"), text_of("Open Directory")));
    let ghost dir_view = match app@.parent_dir {
        Some(p) => p,
        None => "No directory selected"@,
    };
    let ghost status = match app@.status_message {
        Some(m) => seq![mk("text"@, Some("status-message"@), Some(m), false, Seq::empty())],
        None => Seq::empty(),
    };
    assert(nodes_of(children@) =~= seq![text_node(dir_view)] + status + seq![
        button("fetch-all-btn"@, "Fetch All"@),
        button("switch-all-main-btn"@, "Switch All to Main"@),
        button("change-dir-btn"@, "Open Directory"@),
    ]);
    make("panel", Some(text_of("top-bar")), None, false, children)
}


fn remote_description(r: &RemoteInfo) -> (text: String)
    ensures
        text@ == remote_desc(*r),
{
    let mut t = r.name.clone();
    push_str(&mut t, " (");
    match &r.url {
        Some(u) => push_str(&mut t, u.as_str()),
        None => push_str(&mut t, "no URL"),
    }
    push_str(&mut t, ")");
    t
}

fn remotes_description(remotes: &Vec<RemoteInfo>) -> (text: String)
    ensures
        text@ == remotes_text(remotes@),
{
    if remotes.len() == 0 {
        return text_of("(none)");
    }
    let ghost parts = Seq::new(remotes@.len(), |k: int| remote_desc(remotes@[k]));
    let mut t = remote_description(&remotes[0]);
    assert(parts.take(1) =~= seq![parts[0]]);
    let mut k: usize = 1;
    while k < remotes.len()
        invariant
            1 <= k <= remotes@.len(),
            parts == Seq::new(remotes@.len(), |k: int| remote_desc(remotes@[k])),
            t@ == joined(parts.take(k as int), ", "@),
        decreases remotes.len() - k,
    {
        push_str(&mut t, ", ");
        let d = remote_description(&remotes[k]);
        push_str(&mut t, d.as_str());
        assert(parts.take(k + 1).drop_last() =~= parts.take(k as int));
        k = k + 1;
    }
    assert(parts.take(k as int) =~= parts);
    t
}

fn file_status_description(f: &FileStatusSummary) -> (text: String)
    ensures
        text@ == file_status_text(*f),
{
    let mut t = String::new();
    push_decimal(&mut t, f.new_files as u64);
    push_str(&mut t, " new, ");
    push_decimal(&mut t, f.modified as u64);
    push_str(&mut t, " modified, ");
    push_decimal(&mut t, f.deleted as u64);
    push_str(&mut t, " deleted, ");
    push_decimal(&mut t, f.renamed as u64);
    push_str(&mut t, " renamed, ");
    push_decimal(&mut t, f.conflicted as u64);
    push_str(&mut t, " conflicted");
    assert(t@ =~= file_status_text(*f));
    t
}

fn prefixed(prefix: &str, s: &str) -> (text: String)
    ensures
        text@ == prefix@ + s@,
{
    let mut t = text_of(prefix);
    push_str(&mut t, s);
    t
}

fn build_info_node(d: &RepoDetail) -> (node: ViewNode)
    ensures
        node_of(node) == info_node(*d),
{
    let mut children: Vec<ViewNode> = Vec::new();
    push_node(&mut children, label_leaf(prefixed("Path: ", d.path.as_str())));
    push_node(&mut children, label_leaf(prefixed("Branch: ", d.current_branch.as_str())));
    let remotes = remotes_description(&d.remotes);
    push_node(&mut children, label_leaf(prefixed("Remotes: ", remotes.as_str())));
    let status = file_status_description(&d.file_status);
    push_node(&mut children, label_leaf(prefixed("File Status: ", status.as_str())));
    assert(nodes_of(children@) =~= seq![
        label_node("Path: "@ + d.path@),
        label_node("Branch: "@ + d.current_branch@),
        label_node("Remotes: "@ + remotes_text(d.remotes@)),
        label_node("File Status: "@ + file_status_text(d.file_status)),
    ]);
    make("panel", Some(text_of("info-content")), None, false, children)
}

fn build_uninitialized_node(d: &SubmoduleDetail) -> (node: ViewNode)
    ensures
        node_of(node) == uninitialized_node(d@),
{
    let mut children: Vec<ViewNode> = Vec::new();
    push_node(&mut children, label_leaf(prefixed("Name: ", d.name.as_str())));
    push_node(&mut children, label_leaf(prefixed("Path: ", d.path.as_str())));
    let url = match &d.url {
        Some(u) => prefixed("URL: ", u.as_str()),
        None => prefixed("URL: ", "(none)"),
    };
    push_node(&mut children, label_leaf(url));
    push_node(&mut children, label_leaf(text_of("Status: Not initialized")));
    push_node(&mut children, button_leaf("button", text_of("init-submodule-btn"), text_of("Initialize Submodule")));
    assert(nodes_of(children@) =~= seq![
        label_node("Name: "@ + d@.name),
        label_node("Path: "@ + d@.path),
        label_node(
            "URL: "@ + match d@.url {
                Some(u) => u,
                None => "(none)"@,
            },
        ),
        label_node("Status: Not initialized"@),
        button("init-submodule-btn"@, "Initialize Submodule"@),
    ]);
    assert(nodes_of(children@) == uninitialized_node(d@).children);
    let node = make("panel", Some(text_of("submodule-info-content")), None, false, children);
    assert(node_of(node).node_type == uninitialized_node(d@).node_type);
    assert(node_of(node).id == uninitialized_node(d@).id);
    node
}

fn build_log_toolbar(detail: &Option<RepoDetail>) -> (node: ViewNode)
    ensures
        node_of(node) == log_toolbar(*detail),
{
    let mut children: Vec<ViewNode> = Vec::new();
    push_node(&mut children, button_leaf("button", text_of("log-view-list"), text_of("List")));
    push_node(&mut children, button_leaf("button", text_of("log-view-canvas"), text_of("Canvas")));
    let ghost first = nodes_of(children@);
    if let Some(d) = detail {
        let mut branches: Vec<ViewNode> = Vec::new();
        let mut k: usize = 0;
        while k < d.branches.len()
            invariant
                k <= d.branches@.len(),
                nodes_of(branches@) == branch_buttons(texts(d.branches@)).take(k as int),
            decreases d.branches.len() - k,
        {
            let b = &d.branches[k];
            push_node(&mut branches, button_leaf("button", prefixed("log-branch-", b.as_str()), b.clone()));
            assert(branch_buttons(texts(d.branches@)).take(k + 1) =~= branch_buttons(texts(d.branches@)).take(
                k as int,
            ).push(button("log-branch-"@ + b@, b@)));
            k = k + 1;
        }
        assert(branch_buttons(texts(d.branches@)).take(k as int) =~= branch_buttons(texts(d.branches@)));
        push_node(&mut children, make("panel", Some(text_of("log-branches-scroll")), None, false, branches));
        push_node(&mut children, button_leaf("button", text_of("log-pull"), text_of("Pull --rebase")));
        push_node(&mut children, button_leaf("button", text_of("log-push"), text_of("Push")));
        let ghost middle = nodes_of(children@);
        let mut r: usize = 0;
        while r < d.remotes.len()
            invariant
                r <= d.remotes@.len(),
                nodes_of(children@) == middle + remote_buttons(d.remotes@).take(2 * r),
            decreases d.remotes.len() - r,
        {
            let name = &d.remotes[r].name;
            let mut fetch_id = prefixed("log-remote-", name.as_str());
            push_str(&mut fetch_id, "-fetch");
            push_node(&mut children, button_leaf("button", fetch_id, prefixed(name.as_str(), " fetch")));
            let mut reset_id = prefixed("log-remote-", name.as_str());
            push_str(&mut reset_id, "-reset");
            push_node(&mut children, button_leaf("button", reset_id, prefixed(name.as_str(), " reset")));
            proof {
                let rb = remote_buttons(d.remotes@);
                assert((2 * r) / 2 == r && (2 * r + 1) / 2 == r) by (nonlinear_arith);
                assert((2 * r) % 2 == 0 && (2 * r + 1) % 2 == 1) by (nonlinear_arith);
                reveal_strlit("-");
                reveal_strlit("-fetch");
                reveal_strlit("-reset");
                reveal_strlit(" ");
                reveal_strlit(" fetch");
                reveal_strlit(" reset");
                reveal_strlit("fetch");
                reveal_strlit("reset");
                assert(rb[2 * r] == button(
                    "log-remote-"@ + name@ + "-"@ + "fetch"@,
                    name@ + " "@ + "fetch"@,
                ));
                assert(rb[2 * r + 1] == button(
                    "log-remote-"@ + name@ + "-"@ + "reset"@,
                    name@ + " "@ + "reset"@,
                ));
                assert("log-remote-"@ + name@ + "-"@ + "fetch"@ =~= "log-remote-"@ + name@ + "-fetch"@);
                assert("log-remote-"@ + name@ + "-"@ + "reset"@ =~= "log-remote-"@ + name@ + "-reset"@);
                assert(name@ + " "@ + "fetch"@ =~= name@ + " fetch"@);
                assert(name@ + " "@ + "reset"@ =~= name@ + " reset"@);
                assert(rb.take(2 * r + 2) =~= rb.take(2 * r).push(rb[2 * r]).push(rb[2 * r + 1]));
            }
            r = r + 1;
        }
        assert(remote_buttons(d.remotes@).take(2 * r) =~= remote_buttons(d.remotes@));
        assert(nodes_of(children@) =~= first + seq![
            mk("panel"@, Some("log-branches-scroll"@), None, false, branch_buttons(texts(d.branches@))),
            button("log-pull"@, "Pull --rebase"@),
            button("log-push"@, "Push"@),
        ] + remote_buttons(d.remotes@));
    }
    assert(first =~= seq![button("log-view-list"@, "List"@), button("log-view-canvas"@, "Canvas"@)]);
    let ghost tail = toolbar_tail(*detail);
    assert(nodes_of(children@) =~= first + tail);
    make("panel", Some(text_of("log-view-toolbar")), None, false, children)
}


fn append_labels(children: &mut Vec<ViewNode>, labels: &Vec<String>)
    ensures
        nodes_of(final(children)@) == nodes_of(old(children)@) + label_nodes(texts(labels@)),
{
    let ghost start = nodes_of(children@);
    let mut k: usize = 0;
    while k < labels.len()
        invariant
            k <= labels@.len(),
            nodes_of(children@) == start + label_nodes(texts(labels@)).take(k as int),
        decreases labels.len() - k,
    {
        push_node(children, label_leaf(labels[k].clone()));
        assert(label_nodes(texts(labels@)).take(k + 1) =~= label_nodes(texts(labels@)).take(k as int).push(
            label_node(labels@[k as int]@),
        ));
        k = k + 1;
    }
    assert(label_nodes(texts(labels@)).take(k as int) =~= label_nodes(texts(labels@)));
}

fn build_entry_item(detail: &Option<RepoDetail>, e: &LogEntry) -> (node: ViewNode)
    ensures
        node_of(node) == entry_item(*detail, e@),
{
    let mut children: Vec<ViewNode> = Vec::new();
    push_node(&mut children, text_leaf(e.hash.clone()));
    push_node(&mut children, text_leaf(e.message.clone()));
    let ghost first = nodes_of(children@);
    let labels = match detail {
        Some(d) => find_labels(&d.head_labels, &e.full_hash),
        None => Vec::new(),
    };
    assert(texts(labels@) =~= head_labels_of(*detail, e.full_hash@));
    append_labels(&mut children, &labels);
    let mut by = e.author.clone();
    push_str(&mut by, " \u{2014} ");
    push_str(&mut by, e.date.as_str());
    push_node(&mut children, text_leaf(by));
    assert(first =~= seq![text_node(e.hash@), text_node(e.message@)]);
    assert(nodes_of(children@) =~= seq![text_node(e@.hash), text_node(e@.message)] + label_nodes(
        head_labels_of(*detail, e@.full_hash),
    ) + seq![text_node(e@.author + " \u{2014} "@ + e@.date)]);
    make("list-item", None, None, false, children)
}

fn build_log_list(app: &GitMasterApp) -> (node: ViewNode)
    ensures
        node_of(node) == log_list(app@),
{
    let ghost v = app@;
    let mut items: Vec<ViewNode> = Vec::new();
    let mut k: usize = 0;
    while k < app.log_entries.len()
        invariant
            k <= app.log_entries@.len(),
            v == app@,
            nodes_of(items@) == Seq::new(v.log_entries.len(), |j: int| entry_item(v.detail, v.log_entries[j])).take(
                k as int,
            ),
        decreases app.log_entries.len() - k,
    {
        push_node(&mut items, build_entry_item(&app.detail, &app.log_entries[k]));
        assert(v.log_entries[k as int] == app.log_entries@[k as int]@);
        assert(nodes_of(items@) =~= Seq::new(
            v.log_entries.len(),
            |j: int| entry_item(v.detail, v.log_entries[j]),
        ).take(k + 1));
        k = k + 1;
    }
    assert(Seq::new(v.log_entries.len(), |j: int| entry_item(v.detail, v.log_entries[j])).take(k as int) =~= Seq::new(
        v.log_entries.len(),
        |j: int| entry_item(v.detail, v.log_entries[j]),
    ));
    make("list", Some(text_of("log-list")), None, false, items)
}

fn build_card(n: &crate::layout::CanvasNode) -> (node: ViewNode)
    ensures
        node_of(node) == card_node(n@),
{
    let mut children: Vec<ViewNode> = Vec::new();
    let hash = n.short_hash();
    push_node(&mut children, text_leaf(hash));
    let ghost first = nodes_of(children@);
    let ghost expected_hash = match n@.entry {
        Some(e) => e.hash,
        None => short_id(n@.id.1),
    };
    assert(hash@ == expected_hash);
    assert(first =~= seq![text_node(expected_hash)]);
    match n.kind {
        CanvasNodeKind::Commit => {
            if let Some(e) = &n.entry {
                push_node(&mut children, text_leaf(e.message.clone()));
            }
        },
        CanvasNodeKind::Placeholder => {
            push_node(&mut children, text_leaf(text_of("Referenced commit not loaded")));
        },
        CanvasNodeKind::Head => {
            append_labels(&mut children, &n.head_labels);
        },
    }
    let ghost rest = match n@.kind {
        CanvasNodeKind::Commit => match n@.entry {
            Some(e) => seq![text_node(e.message)],
            None => Seq::<Node>::empty(),
        },
        CanvasNodeKind::Placeholder => seq![text_node("Referenced commit not loaded"@)],
        CanvasNodeKind::Head => label_nodes(n@.head_labels),
    };
    assert(nodes_of(children@) =~= first + rest);
    let mut id = prefixed("commit-node-", n.id.lane_id.as_str());
    push_str(&mut id, "-");
    push_str(&mut id, n.id.commit_id.as_str());
    assert(nodes_of(children@) == card_node(n@).children);
    let node = make("commit-node", Some(id), None, true, children);
    assert(node_of(node).id == card_node(n@).id);
    node
}

fn edge_text(e: &crate::layout::CanvasEdge) -> (text: String)
    ensures
        Some(text@) == edge_node(e@).text,
{
    let mut t = e.from.lane_id.clone();
    push_str(&mut t, ":");
    let a = abbreviate(e.from.commit_id.as_str());
    push_str(&mut t, a.as_str());
    push_str(&mut t, " -> ");
    push_str(&mut t, e.to.lane_id.as_str());
    push_str(&mut t, ":");
    let b = abbreviate(e.to.commit_id.as_str());
    push_str(&mut t, b.as_str());
    push_str(&mut t, " (");
    push_str(&mut t, match e.kind {
        CanvasEdgeKind::Parent => "parent",
        CanvasEdgeKind::Submodule => "submodule",
        CanvasEdgeKind::Head => "head",
    });
    push_str(&mut t, ")");
    t
}

fn build_canvas(layout: &Option<CommitCanvasLayout>) -> (node: ViewNode)
    ensures
        node_of(node) == canvas_node(*layout),
{
    match layout {
        None => {
            let mut children: Vec<ViewNode> = Vec::new();
            push_node(&mut children, text_leaf(text_of("Commit graph is unavailable.")));
            assert(nodes_of(children@) =~= seq![text_node("Commit graph is unavailable."@)]);
            make("panel", Some(text_of("commit-canvas")), None, false, children)
        },
        Some(l) => {
            let ghost lv = l@;
            let ghost lanes = Seq::new(
                lv.lanes.len(),
                |k: int| mk("group"@, Some("commit-lane-"@ + lv.lanes[k].id), Some(lv.lanes[k].name), false, Seq::empty()),
            );
            let ghost cards = Seq::new(lv.nodes.len(), |k: int| card_node(lv.nodes[k]));
            let ghost edges = Seq::new(lv.edges.len(), |k: int| edge_node(lv.edges[k]));
            let mut children: Vec<ViewNode> = Vec::new();
            let mut k: usize = 0;
            while k < l.lanes.len()
                invariant
                    k <= l.lanes@.len(),
                    lv == l@,
                    lanes == Seq::new(
                        lv.lanes.len(),
                        |k: int| mk("group"@, Some("commit-lane-"@ + lv.lanes[k].id), Some(lv.lanes[k].name), false, Seq::empty()),
                    ),
                    nodes_of(children@) == lanes.take(k as int),
                decreases l.lanes.len() - k,
            {
                let lane = &l.lanes[k];
                push_node(&mut children, button_leaf_plain("group", prefixed("commit-lane-", lane.id.as_str()), lane.name.clone()));
                assert(lv.lanes[k as int] == lane@);
                assert(nodes_of(children@) =~= lanes.take(k + 1));
                k = k + 1;
            }
            assert(lanes.take(k as int) =~= lanes);
            let mut k: usize = 0;
            while k < l.nodes.len()
                invariant
                    k <= l.nodes@.len(),
                    lv == l@,
                    cards == Seq::new(lv.nodes.len(), |k: int| card_node(lv.nodes[k])),
                    nodes_of(children@) == lanes + cards.take(k as int),
                decreases l.nodes.len() - k,
            {
                push_node(&mut children, build_card(&l.nodes[k]));
                assert(lv.nodes[k as int] == l.nodes@[k as int]@);
                assert(nodes_of(children@) =~= lanes + cards.take(k + 1));
                k = k + 1;
            }
            assert(cards.take(k as int) =~= cards);
            let mut k: usize = 0;
            while k < l.edges.len()
                invariant
                    k <= l.edges@.len(),
                    lv == l@,
                    edges == Seq::new(lv.edges.len(), |k: int| edge_node(lv.edges[k])),
                    nodes_of(children@) == lanes + cards + edges.take(k as int),
                decreases l.edges.len() - k,
            {
                let text = edge_text(&l.edges[k]);
                let leaf = make("graph-edge", None, Some(text), false, Vec::new());
                assert(nodes_of(Seq::<ViewNode>::empty()) =~= Seq::<Node>::empty());
                push_node(&mut children, leaf);
                assert(lv.edges[k as int] == l.edges@[k as int]@);
                assert(nodes_of(children@) =~= lanes + cards + edges.take(k + 1));
                k = k + 1;
            }
            assert(edges.take(k as int) =~= edges);
            make("canvas", Some(text_of("commit-canvas")), None, true, children)
        },
    }
}

fn button_leaf_plain(node_type: &str, id: String, text: String) -> (node: ViewNode)
    ensures
        node_of(node) == mk(node_type@, Some(id@), Some(text@), false, Seq::empty()),
{
    let node = make(node_type, Some(id), Some(text), false, Vec::new());
    assert(nodes_of(Seq::<ViewNode>::empty()) =~= Seq::<Node>::empty());
    node
}


fn build_log_node(app: &GitMasterApp) -> (node: ViewNode)
    ensures
        node_of(node) == log_node(app@),
{
    let mut children: Vec<ViewNode> = Vec::new();
    push_node(&mut children, build_log_toolbar(&app.detail));
    let body = match app.log_view_mode {
        LogViewMode::List => build_log_list(app),
        LogViewMode::Canvas => build_canvas(&app.commit_canvas_layout),
    };
    push_node(&mut children, body);
    assert(nodes_of(children@) =~= log_node(app@).children);
    make("panel", Some(text_of("log-content")), None, false, children)
}

fn build_detail_body(app: &GitMasterApp) -> (node: ViewNode)
    ensures
        node_of(node) == detail_body(app@),
{
    if app.loading_detail {
        return text_leaf(text_of("Loading\u{2026}"));
    }
    if let Some(sub) = &app.submodule_detail {
        if !sub.is_initialized {
            return build_uninitialized_node(sub);
        }
    }
    match &app.detail {
        Some(d) => match app.active_tab {
            DetailTab::Info => build_info_node(d),
            DetailTab::GitLog => build_log_node(app),
        },
        None => text_leaf(text_of("Failed to open repository.")),
    }
}

fn build_tab_bar() -> (node: ViewNode)
    ensures
        node_of(node) == tab_bar(),
{
    let mut children: Vec<ViewNode> = Vec::new();
    push_node(&mut children, button_leaf("tab", text_of("tab-info"), text_of("Info")));
    push_node(&mut children, button_leaf("tab", text_of("tab-log"), text_of("Git Log")));
    assert(nodes_of(children@) =~= tab_bar().children);
    make("panel", Some(text_of("tab-bar")), None, false, children)
}

fn build_detail_panel(app: &GitMasterApp) -> (node: Option<ViewNode>)
    ensures
        match node {
            Some(n) => detail_panel(app@) == Some(node_of(n)),
            None => detail_panel(app@) is None,
        },
{
    if app.selected.is_none() {
        return None;
    }
    let mut content: Vec<ViewNode> = Vec::new();
    push_node(&mut content, build_detail_body(app));
    assert(nodes_of(content@) =~= seq![detail_body(app@)]);
    let mut children: Vec<ViewNode> = Vec::new();
    push_node(&mut children, build_tab_bar());
    push_node(&mut children, make("panel", Some(text_of("detail-content")), None, false, content));
    assert(nodes_of(children@) =~= seq![
        tab_bar(),
        mk("panel"@, Some("detail-content"@), None, false, seq![detail_body(app@)]),
    ]);
    Some(make("panel", Some(text_of("detail-panel")), None, false, children))
}

fn build_context_menu(app: &GitMasterApp) -> (node: Option<ViewNode>)
    ensures
        match node {
            Some(n) => context_menu_node(app@) == Some(node_of(n)),
            None => context_menu_node(app@) is None,
        },
{
    if app.context_menu.is_none() {
        return None;
    }
    let mut children: Vec<ViewNode> = Vec::new();
    push_node(&mut children, button_leaf("menu-item", text_of("ctx-open-directory"), text_of("Open Directory")));
    push_node(&mut children, button_leaf("menu-item", text_of("ctx-open-terminal"), text_of("Open Terminal Here")));
    assert(nodes_of(children@) =~= context_menu_node(app@).unwrap().children);
    Some(make("menu", Some(text_of("context-menu")), None, false, children))
}

/// What the window shows of the application's state, without positions.
pub struct TestViewTreeSnapshot<'a> {
    app: &'a GitMasterApp,
}

impl<'a> TestViewTreeSnapshot<'a> {
    pub closed spec fn state(&self) -> AppView {
        self.app@
    }

    /// The tree of the whole window.
    pub fn build(&self) -> (tree: ViewNode)
        ensures
            node_of(tree) == window_tree(self.state()),
    {
        build_view_tree(self.app)
    }
}

impl GitMasterApp {
    /// The state the view tree is built from.
    pub fn test_view_tree_snapshot(&self) -> (snapshot: TestViewTreeSnapshot<'_>)
        ensures
            snapshot.state() == self@,
    {
        TestViewTreeSnapshot { app: self }
    }
}

/// The tree of the whole window for `app`.
pub fn build_view_tree(app: &GitMasterApp) -> (tree: ViewNode)
    ensures
        node_of(tree) == window_tree(app@),
{
    let mut main: Vec<ViewNode> = Vec::new();
    push_node(&mut main, build_repo_list(app));
    let ghost with_list = nodes_of(main@);
    let panel = build_detail_panel(app);
    if let Some(p) = panel {
        push_node(&mut main, p);
    }
    assert(nodes_of(main@) =~= seq![repo_list(app@)] + optional(detail_panel(app@)));
    let mut children: Vec<ViewNode> = Vec::new();
    push_node(&mut children, build_top_bar(app));
    push_node(&mut children, make("panel", Some(text_of("main-content")), None, false, main));
    let menu = build_context_menu(app);
    if let Some(m) = menu {
        push_node(&mut children, m);
    }
    assert(nodes_of(children@) =~= seq![
        top_bar(app@),
        mk("panel"@, Some("main-content"@), None, false, seq![repo_list(app@)] + optional(detail_panel(app@))),
    ] + optional(context_menu_node(app@)));
    make("window", Some(text_of("root")), None, false, children)
}

} // verus!
