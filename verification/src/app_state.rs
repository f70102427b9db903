//! The state of the application window and its transitions: which
//! workspace directory is shown, which repository or submodule is selected,
//! what the detail panel holds, and which background work is running.
//!
//! Background work (scanning a directory, loading a detail, refreshing a
//! repository) runs elsewhere; its results come back through `apply_*`
//! methods, which ignore results that no longer match what is shown.
use vstd::prelude::*;

use crate::layout::{CommitCanvasLayout, LogViewMode};
use crate::models::{copy_entries, entry_views, opt_text, texts, LogEntry, LogEntryView, RepoDetail,
    RepoInfo, SubmoduleDetail, SubmoduleDetailView, SubmoduleInfo};
use crate::rpc::{TestCommand, TestCommandView};
use crate::sets::TextSet;
use std::collections::BTreeSet;
use crate::text::{same_text, text_of};

verus! {

/// The tab shown in the detail panel.
#[derive(Clone, Copy, Debug, PartialEq, Eq, Structural)]
pub enum DetailTab {
    Info,
    GitLog,
}

/// What the detail panel is about: a repository, or a submodule of one
/// (remembered by its index and by its path relative to the repository).
#[derive(Clone, Debug, PartialEq, Eq)]
pub enum RepoSelection {
    Repo(usize),
    Submodule { repo_index: usize, submodule_index: usize, relative_path: String },
}

pub enum SelectionView {
    Repo(usize),
    Submodule { repo_index: usize, submodule_index: usize, relative_path: Seq<char> },
}

impl View for RepoSelection {
    type V = SelectionView;

    open spec fn view(&self) -> SelectionView {
        match self {
            RepoSelection::Repo(i) => SelectionView::Repo(*i),
            RepoSelection::Submodule { repo_index, submodule_index, relative_path } => SelectionView::Submodule {
                repo_index: *repo_index,
                submodule_index: *submodule_index,
                relative_path: relative_path@,
            },
        }
    }
}

pub open spec fn opt_selection(s: Option<RepoSelection>) -> Option<SelectionView> {
    match s {
        Some(sel) => Some(sel@),
        None => None,
    }
}

impl RepoSelection {
    pub fn copy(&self) -> (c: RepoSelection)
        ensures
            c@ == self@,
    {
        match self {
            RepoSelection::Repo(i) => RepoSelection::Repo(*i),
            RepoSelection::Submodule { repo_index, submodule_index, relative_path } => RepoSelection::Submodule {
                repo_index: *repo_index,
                submodule_index: *submodule_index,
                relative_path: relative_path.clone(),
            },
        }
    }

    pub fn same(&self, other: &RepoSelection) -> (eq: bool)
        ensures
            eq == (self@ == other@),
    {
        match (self, other) {
            (RepoSelection::Repo(a), RepoSelection::Repo(b)) => *a == *b,
            (
                RepoSelection::Submodule { repo_index: r1, submodule_index: s1, relative_path: p1 },
                RepoSelection::Submodule { repo_index: r2, submodule_index: s2, relative_path: p2 },
            ) => *r1 == *r2 && *s1 == *s2 && same_text(p1.as_str(), p2.as_str()),
            _ => false,
        }
    }
}

/// The repository row a context menu was opened on; where it is drawn is
/// kept by the window.
#[derive(Clone, Copy, Debug)]
pub struct ContextMenu {
    pub repo_index: usize,
}

/// The application's state. Flags ending in `_running` say that a
/// background task of that kind is in flight; clearing one cancels it.
pub struct GitMasterApp {
    pub selected_commit: Option<(String, String)>,
    pub commit_text: Option<Result<String, String>>,
    pub commit_running: bool,
    pub commit_pressed: bool,
    pub parent_dir: Option<String>,
    pub repos: Vec<RepoInfo>,
    pub selected: Option<RepoSelection>,
    pub expanded_repos: BTreeSet<usize>,
    pub active_tab: DetailTab,
    pub detail: Option<RepoDetail>,
    pub submodule_detail: Option<SubmoduleDetail>,
    pub log_entries: Vec<LogEntry>,
    pub log_view_mode: LogViewMode,
    pub log_visible_branches: TextSet,
    pub commit_canvas_layout: Option<CommitCanvasLayout>,
    pub canvas_interaction: bool,
    pub scanning: bool,
    pub loading_detail: bool,
    pub context_menu: Option<ContextMenu>,
    pub status_message: Option<String>,
    pub busy: bool,
    pub scan_running: bool,
    pub detail_running: bool,
    pub push_preflight_running: bool,
    pub remote_action_prompt_running: bool,
    pub operation_running: bool,
}

/// The state, with texts and lists by their content.
#[verifier::ext_equal]
pub struct AppView {
    pub selected_commit: Option<(Seq<char>, Seq<char>)>,
    pub commit_text: Option<Result<Seq<char>, Seq<char>>>,
    pub commit_running: bool,
    pub commit_pressed: bool,
    pub parent_dir: Option<Seq<char>>,
    pub repos: Seq<RepoInfo>,
    pub selected: Option<SelectionView>,
    pub expanded_repos: Set<usize>,
    pub active_tab: DetailTab,
    pub detail: Option<RepoDetail>,
    pub submodule_detail: Option<SubmoduleDetail>,
    pub log_entries: Seq<LogEntryView>,
    pub log_view_mode: LogViewMode,
    pub log_visible_branches: Set<Seq<char>>,
    pub commit_canvas_layout: Option<CommitCanvasLayout>,
    pub canvas_interaction: bool,
    pub scanning: bool,
    pub loading_detail: bool,
    pub context_menu: Option<usize>,
    pub status_message: Option<Seq<char>>,
    pub busy: bool,
    pub scan_running: bool,
    pub detail_running: bool,
    pub push_preflight_running: bool,
    pub remote_action_prompt_running: bool,
    pub operation_running: bool,
}

pub open spec fn commit_key_view(k: Option<(String, String)>) -> Option<(Seq<char>, Seq<char>)> {
    match k {
        Some((p, h)) => Some((p@, h@)),
        None => None,
    }
}

pub open spec fn result_view(r: Result<String, String>) -> Result<Seq<char>, Seq<char>> {
    match r {
        Ok(s) => Ok(s@),
        Err(e) => Err(e@),
    }
}

pub open spec fn commit_text_view(t: Option<Result<String, String>>) -> Option<Result<Seq<char>, Seq<char>>> {
    match t {
        Some(Ok(s)) => Some(Ok(s@)),
        Some(Err(e)) => Some(Err(e@)),
        None => None,
    }
}

impl View for GitMasterApp {
    type V = AppView;

    open spec fn view(&self) -> AppView {
        AppView {
            selected_commit: commit_key_view(self.selected_commit),
            commit_text: commit_text_view(self.commit_text),
            commit_running: self.commit_running,
            commit_pressed: self.commit_pressed,
            parent_dir: opt_text(self.parent_dir),
            repos: self.repos@,
            selected: opt_selection(self.selected),
            expanded_repos: self.expanded_repos@,
            active_tab: self.active_tab,
            detail: self.detail,
            submodule_detail: self.submodule_detail,
            log_entries: entry_views(self.log_entries@),
            log_view_mode: self.log_view_mode,
            log_visible_branches: self.log_visible_branches@,
            commit_canvas_layout: self.commit_canvas_layout,
            canvas_interaction: self.canvas_interaction,
            scanning: self.scanning,
            loading_detail: self.loading_detail,
            context_menu: match self.context_menu {
                Some(m) => Some(m.repo_index),
                None => None,
            },
            status_message: opt_text(self.status_message),
            busy: self.busy,
            scan_running: self.scan_running,
            detail_running: self.detail_running,
            push_preflight_running: self.push_preflight_running,
            remote_action_prompt_running: self.remote_action_prompt_running,
            operation_running: self.operation_running,
        }
    }
}

/// The state of a fresh window.
pub open spec fn initial_view() -> AppView {
    AppView {
        selected_commit: None,
        commit_text: None,
        commit_running: false,
        commit_pressed: false,
        parent_dir: None,
        repos: Seq::empty(),
        selected: None,
        expanded_repos: Set::empty(),
        active_tab: DetailTab::Info,
        detail: None,
        submodule_detail: None,
        log_entries: Seq::empty(),
        log_view_mode: LogViewMode::List,
        log_visible_branches: Set::empty(),
        commit_canvas_layout: None,
        canvas_interaction: false,
        scanning: false,
        loading_detail: false,
        context_menu: None,
        status_message: None,
        busy: false,
        scan_running: false,
        detail_running: false,
        push_preflight_running: false,
        remote_action_prompt_running: false,
        operation_running: false,
    }
}

/// The commit details closed: no commit chosen, no text, nothing loading.
pub open spec fn commit_closed(v: AppView) -> AppView {
    AppView {
        commit_running: false,
        selected_commit: None,
        commit_text: None,
        commit_pressed: false,
        ..v
    }
}

/// The status text shown while a push checks its upstream.
pub open spec fn checking_upstream() -> Seq<char> {
    "Checking upstream\u{2026}"@
}

/// A new workspace directory chosen: everything about the previous one is
/// dropped and scanning starts. A push preflight is cancelled, and when
/// the status said it was running, the status and the busy flag go too.
pub open spec fn scan_started(v: AppView, path: Seq<char>) -> AppView {
    let c = commit_closed(v);
    let was_checking = v.status_message == Some(checking_upstream());
    AppView {
        push_preflight_running: false,
        busy: if was_checking { false } else { v.busy },
        status_message: if was_checking { None } else { v.status_message },
        parent_dir: Some(path),
        repos: Seq::empty(),
        selected: None,
        expanded_repos: Set::empty(),
        detail: None,
        submodule_detail: None,
        log_entries: Seq::empty(),
        log_visible_branches: Set::empty(),
        commit_canvas_layout: None,
        canvas_interaction: false,
        scanning: true,
        loading_detail: false,
        detail_running: false,
        context_menu: None,
        ..c
    }
}

/// Scan results taken in when they are for the current workspace
/// directory; results for any other directory are stale and ignored.
pub open spec fn scan_applied(v: AppView, path: Seq<char>, repos: Seq<RepoInfo>) -> AppView {
    if v.parent_dir == Some(path) {
        AppView { repos, scanning: false, ..v }
    } else {
        v
    }
}

/// A selection made: the detail panel is emptied and starts loading.
pub open spec fn selection_started(v: AppView, selection: SelectionView) -> AppView {
    let c = commit_closed(v);
    AppView {
        detail_running: false,
        selected: Some(selection),
        active_tab: DetailTab::Info,
        detail: None,
        submodule_detail: None,
        log_entries: Seq::empty(),
        log_visible_branches: Set::empty(),
        commit_canvas_layout: None,
        canvas_interaction: false,
        loading_detail: true,
        ..c
    }
}

/// The first submodule whose relative path is `relative_path`.
pub open spec fn submodule_position(submodules: Seq<SubmoduleInfo>, relative_path: Seq<char>) -> Option<int>
    decreases submodules.len(),
{
    if submodules.len() == 0 {
        None
    } else if submodules.last().relative_path@ == relative_path
        && submodule_position(submodules.drop_last(), relative_path) is None {
        Some(submodules.len() - 1)
    } else {
        submodule_position(submodules.drop_last(), relative_path)
    }
}

/// The selection dropped along with everything shown for it.
pub open spec fn selection_cleared(v: AppView) -> AppView {
    AppView {
        selected: None,
        detail: None,
        submodule_detail: None,
        log_entries: Seq::empty(),
        commit_canvas_layout: None,
        canvas_interaction: false,
        loading_detail: false,
        ..v
    }
}

/// After repository `refreshed` was read again, a submodule selection in it
/// follows its relative path to the submodule's new index, and is dropped
/// when no submodule has that path any more.
pub open spec fn reconciled(v: AppView, refreshed: int) -> AppView {
    match v.selected {
        Some(SelectionView::Submodule { repo_index, submodule_index, relative_path }) => {
            if repo_index != refreshed {
                v
            } else if repo_index >= v.repos.len() {
                selection_cleared(v)
            } else {
                match submodule_position(v.repos[repo_index as int].submodules@, relative_path) {
                    Some(k) => AppView {
                        selected: Some(
                            SelectionView::Submodule { repo_index, submodule_index: k as usize, relative_path },
                        ),
                        ..v
                    },
                    None => selection_cleared(v),
                }
            }
        },
        _ => v,
    }
}

/// A refreshed repository taken in when the row at `index` still shows the
/// repository at `path`; otherwise the result is stale and ignored.
pub open spec fn refresh_applied(v: AppView, index: int, path: Seq<char>, refreshed: Option<RepoInfo>) -> AppView {
    if !(0 <= index < v.repos.len() && v.repos[index].path@ == path) {
        v
    } else {
        match refreshed {
            Some(info) => reconciled(AppView { repos: v.repos.update(index, info), ..v }, index),
            None => v,
        }
    }
}

/// The submodule selection, when it still names a submodule with its
/// remembered relative path.
pub open spec fn selected_submodule_spec(v: AppView) -> Option<(usize, usize, Seq<char>)> {
    match v.selected {
        Some(SelectionView::Submodule { repo_index, submodule_index, relative_path }) => {
            if repo_index < v.repos.len() && submodule_index < v.repos[repo_index as int].submodules@.len()
                && v.repos[repo_index as int].submodules@[submodule_index as int].relative_path@ == relative_path {
                Some((repo_index, submodule_index, relative_path))
            } else {
                None
            }
        },
        _ => None,
    }
}

/// Detail results taken in when they are for the current selection;
/// results for any other selection are stale and ignored. With a commit
/// graph, the history list is the graph's own list.
pub open spec fn detail_applied(
    v: AppView,
    selection: SelectionView,
    detail: Option<RepoDetail>,
    submodule_detail: Option<SubmoduleDetail>,
    entries: Seq<LogEntryView>,
    layout: Option<CommitCanvasLayout>,
) -> AppView {
    if v.selected != Some(selection) {
        v
    } else {
        AppView {
            detail,
            submodule_detail,
            log_entries: match layout {
                Some(l) => entry_views(l.list.entries@),
                None => entries,
            },
            commit_canvas_layout: layout,
            canvas_interaction: false,
            loading_detail: false,
            ..v
        }
    }
}

/// A set with `i` added when it was absent and removed when present.
pub open spec fn toggled(s: Set<usize>, i: usize) -> Set<usize> {
    if s.contains(i) {
        s.remove(i)
    } else {
        s.insert(i)
    }
}

pub proof fn lemma_submodule_position(submodules: Seq<SubmoduleInfo>, relative_path: Seq<char>)
    ensures
        match submodule_position(submodules, relative_path) {
            Some(k) => 0 <= k < submodules.len() && submodules[k].relative_path@ == relative_path
                && forall|j: int| 0 <= j < k ==> (#[trigger] submodules[j]).relative_path@ != relative_path,
            None => forall|j: int| 0 <= j < submodules.len() ==> (#[trigger] submodules[j]).relative_path@
                != relative_path,
        },
    decreases submodules.len(),
{
    if submodules.len() > 0 {
        let rest = submodules.drop_last();
        lemma_submodule_position(rest, relative_path);
        assert forall|j: int| 0 <= j < rest.len() implies rest[j] == submodules[j] by {}
    }
}

/// The branches whose history is shown before the user picks any: the
/// checked-out branch when it is a local branch, and `main`, or else
/// `master`, when such a branch exists.
pub open spec fn default_branches(branches: Seq<Seq<char>>, current: Seq<char>) -> Set<Seq<char>> {
    let with_current = if branches.contains(current) {
        Set::empty().insert(current)
    } else {
        Set::empty()
    };
    if branches.contains("main"@) {
        with_current.insert("main"@)
    } else if branches.contains("master"@) {
        with_current.insert("master"@)
    } else {
        with_current
    }
}

/// The text shown when the last visible branch would be hidden.
pub open spec fn last_branch_message() -> Seq<char> {
    "At least one branch must remain visible"@
}

/// The visible branches, or the defaults of the detail when none is
/// chosen yet.
pub open spec fn visible_base(v: AppView) -> Set<Seq<char>> {
    if v.log_visible_branches.len() == 0 && v.detail is Some {
        default_branches(texts(v.detail.unwrap().branches@), v.detail.unwrap().current_branch@)
    } else {
        v.log_visible_branches
    }
}

/// A branch shown or hidden in the history, and whether the history must
/// be read again. Nothing happens while an operation runs; an empty choice
/// starts from the defaults of the detail; the last visible branch stays.
pub open spec fn log_branch_toggled(v: AppView, branch: Seq<char>) -> (AppView, bool) {
    if v.busy {
        (v, false)
    } else {
        let base = visible_base(v);
        let v1 = AppView { log_visible_branches: base, ..v };
        if base.contains(branch) {
            if base.len() == 1 {
                (AppView { status_message: Some(last_branch_message()), ..v1 }, false)
            } else {
                (AppView { log_visible_branches: base.remove(branch), ..v1 }, true)
            }
        } else {
            (AppView { log_visible_branches: base.insert(branch), ..v1 }, true)
        }
    }
}

/// The text of a commit taken in when that commit is still the one shown.
pub open spec fn commit_text_applied(
    v: AppView,
    key: (Seq<char>, Seq<char>),
    text: Result<Seq<char>, Seq<char>>,
) -> AppView {
    if v.selected_commit == Some(key) {
        AppView { commit_text: Some(text), ..v }
    } else {
        v
    }
}

/// The background work a test command asks for: the detail of `path`,
/// and the commit graph of `graph_path` when there is one.
pub struct TestDetailRequest {
    pub selection: RepoSelection,
    pub path: String,
    pub submodule_detail: Option<SubmoduleDetail>,
    pub is_initialized: bool,
    pub graph_path: Option<String>,
}

pub struct TestDetailRequestView {
    pub selection: SelectionView,
    pub path: Seq<char>,
    pub submodule_detail: Option<SubmoduleDetailView>,
    pub is_initialized: bool,
    pub graph_path: Option<Seq<char>>,
}

impl View for TestDetailRequest {
    type V = TestDetailRequestView;

    open spec fn view(&self) -> TestDetailRequestView {
        TestDetailRequestView {
            selection: self.selection@,
            path: self.path@,
            submodule_detail: match self.submodule_detail {
                Some(d) => Some(d@),
                None => None,
            },
            is_initialized: self.is_initialized,
            graph_path: opt_text(self.graph_path),
        }
    }
}

/// What the background work of a test command loaded.
pub struct TestDetailResult {
    pub selection: RepoSelection,
    pub detail: Option<RepoDetail>,
    pub submodule_detail: Option<SubmoduleDetail>,
    pub log_entries: Vec<LogEntry>,
    pub commit_canvas_layout: Option<CommitCanvasLayout>,
}

pub open spec fn submodule_detail_view(s: SubmoduleInfo) -> SubmoduleDetailView {
    SubmoduleDetailView {
        name: s.name@,
        path: s.path@,
        url: opt_text(s.url),
        is_initialized: s.is_initialized,
    }
}

/// How a test command changes the state, and the background work it asks
/// for. Commands naming a repository or submodule that does not exist
/// change nothing; unknown tab and view names are ignored.
pub open spec fn test_command_effect(v: AppView, command: TestCommandView) -> (AppView, Option<TestDetailRequestView>) {
    match command {
        TestCommandView::SelectRepo(i) => if i < v.repos.len() {
            let path = v.repos[i as int].path@;
            (
                selection_started(v, SelectionView::Repo(i)),
                Some(
                    TestDetailRequestView {
                        selection: SelectionView::Repo(i),
                        path,
                        submodule_detail: None,
                        is_initialized: true,
                        graph_path: Some(path),
                    },
                ),
            )
        } else {
            (v, None)
        },
        TestCommandView::ToggleRepo(i) => (AppView { expanded_repos: toggled(v.expanded_repos, i), ..v }, None),
        TestCommandView::SelectSubmodule { repo_index, submodule_index } => {
            if repo_index < v.repos.len() && submodule_index < v.repos[repo_index as int].submodules@.len() {
                let s = v.repos[repo_index as int].submodules@[submodule_index as int];
                let selection = SelectionView::Submodule { repo_index, submodule_index, relative_path: s.relative_path@ };
                (
                    selection_started(v, selection),
                    Some(
                        TestDetailRequestView {
                            selection,
                            path: s.path@,
                            submodule_detail: Some(submodule_detail_view(s)),
                            is_initialized: s.is_initialized,
                            graph_path: if s.is_initialized { Some(s.path@) } else { None },
                        },
                    ),
                )
            } else {
                (v, None)
            }
        },
        TestCommandView::SetTab(t) => (
            if t == "info"@ {
                AppView { active_tab: DetailTab::Info, ..v }
            } else if t == "log"@ {
                AppView { active_tab: DetailTab::GitLog, ..v }
            } else {
                v
            },
            None,
        ),
        TestCommandView::SetLogView(m) => (
            if m == "list"@ {
                AppView { log_view_mode: LogViewMode::List, canvas_interaction: false, ..v }
            } else if m == "canvas"@ {
                AppView { log_view_mode: LogViewMode::Canvas, canvas_interaction: false, ..v }
            } else {
                v
            },
            None,
        ),
    }
}

/// Where a remote action on the selection applies: the repository index,
/// the repository's path, the path to operate on (the submodule's for a
/// submodule) and, for a submodule, what the detail panel shows of it.
pub open spec fn remote_action_target(v: AppView) -> Option<(usize, Seq<char>, Seq<char>, SelectionView, Option<SubmoduleDetailView>)> {
    match v.selected {
        Some(SelectionView::Repo(r)) => if r < v.repos.len() {
            Some((r, v.repos[r as int].path@, v.repos[r as int].path@, SelectionView::Repo(r), None))
        } else {
            None
        },
        Some(SelectionView::Submodule { repo_index, submodule_index, relative_path }) => {
            if repo_index < v.repos.len() && submodule_index < v.repos[repo_index as int].submodules@.len() {
                let s = v.repos[repo_index as int].submodules@[submodule_index as int];
                Some((
                    repo_index,
                    v.repos[repo_index as int].path@,
                    s.path@,
                    SelectionView::Submodule { repo_index, submodule_index, relative_path },
                    Some(submodule_detail_view(s)),
                ))
            } else {
                None
            }
        },
        None => None,
    }
}


/// Choosing another workspace directory while a scan runs makes the
/// earlier scan's results stale: they change nothing when they arrive.
pub proof fn stale_scan_is_ignored(v: AppView, earlier: Seq<char>, later: Seq<char>, repos: Seq<RepoInfo>)
    requires
        earlier != later,
    ensures
        scan_applied(scan_started(v, later), earlier, repos) == scan_started(v, later),
{
}

/// The results of the scan of the current directory are what the list
/// shows, and scanning ends.
pub proof fn scan_results_are_shown(v: AppView, path: Seq<char>, repos: Seq<RepoInfo>)
    ensures
        scan_applied(scan_started(v, path), path, repos).repos == repos,
        !scan_applied(scan_started(v, path), path, repos).scanning,
{
}

/// Starting a scan cancels a running push preflight; when the status said
/// the preflight was checking the upstream, the status and the busy flag
/// are cleared too.
pub proof fn scan_cancels_push_preflight(v: AppView, path: Seq<char>)
    ensures
        !scan_started(v, path).push_preflight_running,
        v.status_message == Some(checking_upstream()) ==> !scan_started(v, path).busy
            && scan_started(v, path).status_message is None,
        v.status_message != Some(checking_upstream()) ==> scan_started(v, path).busy == v.busy
            && scan_started(v, path).status_message == v.status_message,
{
}

/// What is loaded for the current selection is what the detail panel
/// shows, and loading ends.
pub proof fn selected_detail_is_shown(
    v: AppView,
    selection: SelectionView,
    detail: Option<RepoDetail>,
    submodule_detail: Option<SubmoduleDetail>,
    entries: Seq<LogEntryView>,
)
    ensures
        ({
            let w = detail_applied(selection_started(v, selection), selection, detail, submodule_detail, entries, None);
            &&& w.selected == Some(selection)
            &&& w.detail == detail
            &&& w.submodule_detail == submodule_detail
            &&& w.log_entries == entries
            &&& !w.loading_detail
        }),
{
}

/// Selecting something else while a detail loads makes the earlier load
/// stale: its results change nothing when they arrive.
pub proof fn later_selection_wins(
    v: AppView,
    earlier: SelectionView,
    later: SelectionView,
    detail: Option<RepoDetail>,
    submodule_detail: Option<SubmoduleDetail>,
    entries: Seq<LogEntryView>,
    layout: Option<CommitCanvasLayout>,
)
    requires
        earlier != later,
    ensures
        ({
            let w = selection_started(selection_started(v, earlier), later);
            detail_applied(w, earlier, detail, submodule_detail, entries, layout) == w
        }),
{
}

/// With a commit graph, the history list shows exactly the graph's own
/// list, whatever list was loaded beside it: list and canvas agree.
pub proof fn list_and_canvas_show_the_same_history(
    v: AppView,
    selection: SelectionView,
    detail: Option<RepoDetail>,
    submodule_detail: Option<SubmoduleDetail>,
    entries: Seq<LogEntryView>,
    layout: CommitCanvasLayout,
)
    ensures
        detail_applied(selection_started(v, selection), selection, detail, submodule_detail, entries, Some(layout)).log_entries
            == layout@.list,
        detail_applied(selection_started(v, selection), selection, detail, submodule_detail, entries, Some(layout)).commit_canvas_layout
            == Some(layout),
{
}

/// Toggling a repository row twice leaves the expanded rows as they were.
pub proof fn toggle_twice_restores(s: Set<usize>, i: usize)
    ensures
        toggled(toggled(s, i), i) == s,
{
    if s.contains(i) {
        assert(s.remove(i).insert(i) =~= s);
    } else {
        assert(s.insert(i).remove(i) =~= s);
    }
}

/// A refreshed repository is taken in only when its row still shows the
/// same path; a result for a row that now shows another repository, or
/// for a row that is gone, changes nothing.
pub proof fn refresh_for_replaced_repo_is_ignored(v: AppView, index: int, path: Seq<char>, refreshed: Option<RepoInfo>)
    requires
        !(0 <= index < v.repos.len() && v.repos[index].path@ == path),
    ensures
        refresh_applied(v, index, path, refreshed) == v,
{
}

/// After the selected submodule's repository is read again, the selection
/// either names the submodule with the remembered relative path, at its
/// new index, or is dropped when no submodule has that path any more.
pub proof fn refresh_follows_submodule_by_relative_path(
    v: AppView,
    index: usize,
    path: Seq<char>,
    info: RepoInfo,
    submodule_index: usize,
    relative_path: Seq<char>,
)
    requires
        0 <= index < v.repos.len(),
        v.repos[index as int].path@ == path,
        v.selected == Some(SelectionView::Submodule { repo_index: index, submodule_index, relative_path }),
        info.submodules@.len() <= usize::MAX,
    ensures
        ({
            let w = refresh_applied(v, index as int, path, Some(info));
            &&& w.repos[index as int] == info
            &&& match submodule_position(info.submodules@, relative_path) {
                Some(k) => {
                    &&& w.selected == Some(
                        SelectionView::Submodule { repo_index: index, submodule_index: k as usize, relative_path },
                    )
                    &&& selected_submodule_spec(w) == Some((index, k as usize, relative_path))
                },
                None => w.selected is None && w.detail is None && !w.loading_detail,
            }
        }),
{
    lemma_submodule_position(info.submodules@, relative_path);
    let u = AppView { repos: v.repos.update(index as int, info), ..v };
    assert(u.repos[index as int] == info);
    assert(refresh_applied(v, index as int, path, Some(info)) == reconciled(u, index as int));
    assert(u.selected == v.selected);
}

/// Commit text that arrives after another commit was opened changes
/// nothing; text for the commit still shown is what the panel shows.
pub proof fn commit_text_follows_the_open_commit(
    v: AppView,
    shown: (Seq<char>, Seq<char>),
    other: (Seq<char>, Seq<char>),
    text: Result<Seq<char>, Seq<char>>,
)
    requires
        shown != other,
    ensures
        ({
            let w = AppView { selected_commit: Some(shown), commit_text: None, commit_running: true, ..v };
            &&& commit_text_applied(w, other, text) == w
            &&& commit_text_applied(w, shown, text).commit_text == Some(text)
        }),
{
}

/// Hiding and showing branches never leaves the history without a
/// visible branch.
pub proof fn a_branch_always_remains_visible(v: AppView, branch: Seq<char>)
    requires
        visible_base(v).finite(),
        visible_base(v).len() > 0,
    ensures
        log_branch_toggled(v, branch).0.log_visible_branches.len() > 0 || v.busy,
{
    let base = visible_base(v);
    if !v.busy {
        if base.contains(branch) {
            if base.len() != 1 {
                assert(base.remove(branch).len() == base.len() - 1);
            }
        } else {
            assert(base.insert(branch).len() == base.len() + 1);
        }
    }
}

/// The index of the first submodule whose relative path is `relative_path`.
fn find_submodule(submodules: &Vec<SubmoduleInfo>, relative_path: &str) -> (found: Option<usize>)
    ensures
        match found {
            Some(k) => submodule_position(submodules@, relative_path@) == Some(k as int),
            None => submodule_position(submodules@, relative_path@) is None,
        },
{
    proof {
        lemma_submodule_position(submodules@, relative_path@);
    }
    let mut k: usize = 0;
    while k < submodules.len()
        invariant
            k <= submodules@.len(),
            forall|j: int| 0 <= j < k ==> (#[trigger] submodules@[j]).relative_path@ != relative_path@,
        decreases submodules.len() - k,
    {
        if same_text(submodules[k].relative_path.as_str(), relative_path) {
            proof {
                lemma_submodule_position(submodules@, relative_path@);
                assert(submodules@[k as int].relative_path@ == relative_path@);
                match submodule_position(submodules@, relative_path@) {
                    Some(p) => {
                        if p < k {
                            assert(submodules@[p].relative_path@ == relative_path@);
                        }
                    },
                    None => {},
                }
            }
            return Some(k);
        }
        k = k + 1;
    }
    proof {
        if let Some(p) = submodule_position(submodules@, relative_path@) {
            assert(submodules@[p].relative_path@ == relative_path@);
        }
    }
    None
}

/// Whether some name in `names` is `name`.
fn contains_text(names: &Vec<String>, name: &str) -> (found: bool)
    ensures
        found == texts(names@).contains(name@),
{
    let mut k: usize = 0;
    while k < names.len()
        invariant
            k <= names@.len(),
            forall|j: int| 0 <= j < k ==> names@[j]@ != name@,
        decreases names.len() - k,
    {
        if same_text(names[k].as_str(), name) {
            assert(texts(names@)[k as int] == name@);
            return true;
        }
        k = k + 1;
    }
    proof {
        if texts(names@).contains(name@) {
            let j = choose|j: int| 0 <= j < texts(names@).len() && texts(names@)[j] == name@;
            assert(names@[j]@ == name@);
        }
    }
    false
}


impl GitMasterApp {
    pub fn new() -> (app: GitMasterApp)
        ensures
            app@ == initial_view(),
    {
        let app = GitMasterApp {
            selected_commit: None,
            commit_text: None,
            commit_running: false,
            commit_pressed: false,
            parent_dir: None,
            repos: Vec::new(),
            selected: None,
            expanded_repos: BTreeSet::new(),
            active_tab: DetailTab::Info,
            detail: None,
            submodule_detail: None,
            log_entries: Vec::new(),
            log_view_mode: LogViewMode::List,
            log_visible_branches: TextSet::new(),
            commit_canvas_layout: None,
            canvas_interaction: false,
            scanning: false,
            loading_detail: false,
            context_menu: None,
            status_message: None,
            busy: false,
            scan_running: false,
            detail_running: false,
            push_preflight_running: false,
            remote_action_prompt_running: false,
            operation_running: false,
        };
        assert(app@ =~= initial_view());
        app
    }

    pub fn close_commit_details(&mut self)
        ensures
            final(self)@ == commit_closed(old(self)@),
    {
        self.commit_running = false;
        self.selected_commit = None;
        self.commit_text = None;
        self.commit_pressed = false;
        assert(self@ =~= commit_closed(old(self)@));
    }

    /// Makes `path` the workspace directory and enters the scanning state;
    /// the scan runs in the background and its result comes back through
    /// `apply_scan`.
    pub fn begin_scan(&mut self, path: String)
        ensures
            final(self)@ == scan_started(old(self)@, path@),
    {
        self.close_commit_details();
        let was_checking_upstream = match &self.status_message {
            Some(message) => same_text(message.as_str(), "Checking upstream\u{2026}"),
            None => false,
        };
        self.push_preflight_running = false;
        if was_checking_upstream {
            self.busy = false;
            self.status_message = None;
        }
        self.parent_dir = Some(path);
        self.repos.clear();
        self.selected = None;
        self.expanded_repos.clear();
        self.detail = None;
        self.submodule_detail = None;
        self.log_entries.clear();
        self.log_visible_branches.clear();
        self.commit_canvas_layout = None;
        self.canvas_interaction = false;
        self.scanning = true;
        self.loading_detail = false;
        self.detail_running = false;
        self.context_menu = None;
        assert(entry_views(self.log_entries@) =~= Seq::<LogEntryView>::empty());
        assert(self@ =~= scan_started(old(self)@, path@));
    }

    /// Takes in the repositories found under `path`, unless the workspace
    /// directory has changed since the scan began.
    pub fn apply_scan(&mut self, path: &str, repos: Vec<RepoInfo>)
        ensures
            final(self)@ == scan_applied(old(self)@, path@, repos@),
    {
        let current = match &self.parent_dir {
            Some(dir) => same_text(dir.as_str(), path),
            None => false,
        };
        if !current {
            return;
        }
        self.repos = repos;
        self.scanning = false;
        assert(self@ =~= AppView { repos: repos@, scanning: false, ..old(self)@ });
    }

    /// Selects repository `index`; its detail loads in the background and
    /// comes back through `apply_detail`.
    pub fn begin_select(&mut self, index: usize)
        ensures
            final(self)@ == selection_started(old(self)@, SelectionView::Repo(index)),
    {
        self.close_commit_details();
        self.detail_running = false;
        self.selected = Some(RepoSelection::Repo(index));
        self.active_tab = DetailTab::Info;
        self.detail = None;
        self.submodule_detail = None;
        self.log_entries.clear();
        self.log_visible_branches.clear();
        self.commit_canvas_layout = None;
        self.canvas_interaction = false;
        self.loading_detail = true;
        assert(entry_views(self.log_entries@) =~= Seq::<LogEntryView>::empty());
        assert(self@ =~= selection_started(old(self)@, SelectionView::Repo(index)));
    }

    /// Selects a submodule of repository `repo_index`.
    pub fn begin_select_submodule(&mut self, repo_index: usize, submodule_index: usize, relative_path: String)
        ensures
            final(self)@ == selection_started(
                old(self)@,
                SelectionView::Submodule { repo_index, submodule_index, relative_path: relative_path@ },
            ),
    {
        let ghost rel = relative_path@;
        self.close_commit_details();
        self.detail_running = false;
        self.selected = Some(RepoSelection::Submodule { repo_index, submodule_index, relative_path });
        self.active_tab = DetailTab::Info;
        self.detail = None;
        self.submodule_detail = None;
        self.log_entries.clear();
        self.log_visible_branches.clear();
        self.commit_canvas_layout = None;
        self.canvas_interaction = false;
        self.loading_detail = true;
        assert(entry_views(self.log_entries@) =~= Seq::<LogEntryView>::empty());
        assert(self@ =~= selection_started(
            old(self)@,
            SelectionView::Submodule { repo_index, submodule_index, relative_path: rel },
        ));
    }

    /// Takes in what was loaded for `selection`, unless something else has
    /// been selected since.
    pub fn apply_detail(
        &mut self,
        selection: RepoSelection,
        detail: Option<RepoDetail>,
        submodule_detail: Option<SubmoduleDetail>,
        log_entries: Vec<LogEntry>,
        commit_canvas_layout: Option<CommitCanvasLayout>,
    )
        ensures
            final(self)@ == detail_applied(
                old(self)@,
                selection@,
                detail,
                submodule_detail,
                entry_views(log_entries@),
                commit_canvas_layout,
            ),
    {
        let current = match &self.selected {
            Some(s) => s.same(&selection),
            None => false,
        };
        if !current {
            return;
        }
        self.detail = detail;
        self.submodule_detail = submodule_detail;
        self.log_entries = match &commit_canvas_layout {
            Some(layout) => copy_entries(&layout.list.entries),
            None => log_entries,
        };
        self.commit_canvas_layout = commit_canvas_layout;
        self.canvas_interaction = false;
        self.loading_detail = false;
        assert(self@ =~= detail_applied(
            old(self)@,
            selection@,
            detail,
            submodule_detail,
            entry_views(log_entries@),
            commit_canvas_layout,
        ));
    }

    pub fn set_tab(&mut self, tab: DetailTab)
        ensures
            final(self)@ == (AppView { active_tab: tab, ..old(self)@ }),
    {
        self.active_tab = tab;
        assert(self@ =~= AppView { active_tab: tab, ..old(self)@ });
    }

    /// Switches between the history list and the commit graph; any drag in
    /// progress on the graph ends.
    pub fn set_log_view_mode(&mut self, mode: LogViewMode)
        ensures
            final(self)@ == (AppView { log_view_mode: mode, canvas_interaction: false, ..old(self)@ }),
    {
        self.log_view_mode = mode;
        self.canvas_interaction = false;
        assert(self@ =~= AppView { log_view_mode: mode, canvas_interaction: false, ..old(self)@ });
    }

    /// Expands repository row `index`, or collapses it when expanded.
    pub fn toggle_repo_expanded(&mut self, index: usize)
        ensures
            final(self)@ == (AppView { expanded_repos: toggled(old(self)@.expanded_repos, index), ..old(self)@ }),
    {
        if !self.expanded_repos.insert(index) {
            self.expanded_repos.remove(&index);
            assert(old(self)@.expanded_repos.insert(index).remove(index) =~= old(self)@.expanded_repos.remove(index));
        }
        assert(self@ =~= AppView { expanded_repos: toggled(old(self)@.expanded_repos, index), ..old(self)@ });
    }

    pub fn open_context_menu(&mut self, repo_index: usize)
        ensures
            final(self)@ == (AppView { context_menu: Some(repo_index), ..old(self)@ }),
    {
        self.context_menu = Some(ContextMenu { repo_index });
        assert(self@ =~= AppView { context_menu: Some(repo_index), ..old(self)@ });
    }

    pub fn close_context_menu(&mut self)
        ensures
            final(self)@ == (AppView { context_menu: None, ..old(self)@ }),
    {
        self.context_menu = None;
        assert(self@ =~= AppView { context_menu: None, ..old(self)@ });
    }

    pub fn set_status(&mut self, message: String)
        ensures
            final(self)@ == (AppView { status_message: Some(message@), ..old(self)@ }),
    {
        let ghost m = message@;
        self.status_message = Some(message);
        assert(self@ =~= AppView { status_message: Some(m), ..old(self)@ });
    }

    /// Takes in a repository read again after an operation, when row
    /// `index` still shows the repository at `expected_path`.
    pub fn apply_repo_refresh(&mut self, index: usize, expected_path: &str, refreshed: Option<RepoInfo>)
        ensures
            final(self)@ == refresh_applied(old(self)@, index as int, expected_path@, refreshed),
    {
        let current = index < self.repos.len() && same_text(self.repos[index].path.as_str(), expected_path);
        if !current {
            return;
        }
        if let Some(info) = refreshed {
            let ghost i = info;
            self.repos.set(index, info);
            assert(self@ =~= AppView { repos: old(self)@.repos.update(index as int, i), ..old(self)@ });
            self.reconcile_submodule_selection(index);
        }
    }

    #[verifier::rlimit(50)]
    fn reconcile_submodule_selection(&mut self, refreshed_repo_index: usize)
        ensures
            final(self)@ == reconciled(old(self)@, refreshed_repo_index as int),
    {
        let (repo_index, relative_path) = match &self.selected {
            Some(RepoSelection::Submodule { repo_index, relative_path, .. }) => (*repo_index, relative_path.clone()),
            _ => return,
        };
        if repo_index != refreshed_repo_index {
            return;
        }
        let found = if repo_index < self.repos.len() {
            find_submodule(&self.repos[repo_index].submodules, relative_path.as_str())
        } else {
            None
        };
        match found {
            None => {
                self.selected = None;
                self.detail = None;
                self.submodule_detail = None;
                self.log_entries.clear();
                self.commit_canvas_layout = None;
                self.canvas_interaction = false;
                self.loading_detail = false;
                assert(entry_views(self.log_entries@) =~= Seq::<LogEntryView>::empty());
                assert(self@ =~= selection_cleared(old(self)@));
            },
            Some(new_index) => {
                let ghost rel = relative_path@;
                self.selected = Some(RepoSelection::Submodule {
                    repo_index,
                    submodule_index: new_index,
                    relative_path,
                });
                assert(self@ =~= AppView {
                    selected: Some(
                        SelectionView::Submodule { repo_index, submodule_index: new_index, relative_path: rel },
                    ),
                    ..old(self)@
                });
            },
        }
    }

    /// The selected submodule as (repository index, submodule index,
    /// relative path), when the selection still names one.
    pub fn selected_submodule(&self) -> (found: Option<(usize, usize, String)>)
        ensures
            match found {
                Some((r, s, p)) => selected_submodule_spec(self@) == Some((r, s, p@)),
                None => selected_submodule_spec(self@) is None,
            },
    {
        match &self.selected {
            Some(RepoSelection::Submodule { repo_index, submodule_index, relative_path }) => {
                if *repo_index < self.repos.len() && *submodule_index < self.repos[*repo_index].submodules.len()
                    && same_text(
                    self.repos[*repo_index].submodules[*submodule_index].relative_path.as_str(),
                    relative_path.as_str(),
                ) {
                    Some((*repo_index, *submodule_index, relative_path.clone()))
                } else {
                    None
                }
            },
            _ => None,
        }
    }

    /// Shows commit `hash` of the repository at `path`; its text loads in
    /// the background and comes back through `apply_commit_text`.
    pub fn open_commit_details(&mut self, path: String, hash: String)
        ensures
            final(self)@ == (AppView {
                selected_commit: Some((path@, hash@)),
                commit_text: None,
                commit_running: true,
                ..old(self)@
            }),
    {
        let ghost key = (path@, hash@);
        self.selected_commit = Some((path, hash));
        self.commit_text = None;
        self.commit_running = true;
        assert(self@ =~= AppView { selected_commit: Some(key), commit_text: None, commit_running: true, ..old(self)@ });
    }

    /// Takes in the text loaded for commit `hash` of `path`, unless another
    /// commit is shown by now.
    pub fn apply_commit_text(&mut self, path: &str, hash: &str, text: Result<String, String>)
        ensures
            final(self)@ == commit_text_applied(
                old(self)@,
                (path@, hash@),
                result_view(text),
            ),
    {
        let current = match &self.selected_commit {
            Some((p, h)) => same_text(p.as_str(), path) && same_text(h.as_str(), hash),
            None => false,
        };
        if current {
            let ghost tv = result_view(text);
            self.commit_text = Some(text);
            assert(self@ =~= AppView { commit_text: Some(tv), ..old(self)@ });
        }
    }

    /// The branches shown by default for a repository detail.
    pub fn default_log_visible_branches(detail: &RepoDetail) -> (branches: TextSet)
        ensures
            branches@ == default_branches(texts(detail.branches@), detail.current_branch@),
    {
        let mut branches = TextSet::new();
        let ghost names = texts(detail.branches@);
        if contains_text(&detail.branches, detail.current_branch.as_str()) {
            branches.insert(detail.current_branch.clone());
        }
        let ghost with_current = branches@;
        if contains_text(&detail.branches, "main") {
            branches.insert(text_of("main"));
        } else if contains_text(&detail.branches, "master") {
            branches.insert(text_of("master"));
        }
        assert(branches@ =~= default_branches(names, detail.current_branch@));
        branches
    }

    /// Shows or hides `branch` in the history; true when the history must
    /// be read again for the new choice of branches.
    #[verifier::rlimit(30)]
    pub fn toggle_log_branch(&mut self, branch: String) -> (reload: bool)
        ensures
            (final(self)@, reload) == log_branch_toggled(old(self)@, branch@),
    {
        if self.busy {
            return false;
        }
        self.fill_default_branches();
        let ghost base = visible_base(old(self)@);
        let ghost v1 = self@;
        let ghost b = branch@;
        if self.log_visible_branches.contains(branch.as_str()) {
            if self.log_visible_branches.len() == 1 {
                self.set_status(text_of("At least one branch must remain visible"));
                return false;
            }
            self.log_visible_branches.remove(branch.as_str());
            assert(self@ =~= AppView { log_visible_branches: base.remove(b), ..v1 });
        } else {
            self.log_visible_branches.insert(branch);
            assert(self@ =~= AppView { log_visible_branches: base.insert(b), ..v1 });
        }
        true
    }

    /// Where a remote action on the current selection applies.
    pub fn selected_remote_action_target(&self) -> (target: Option<
        (usize, String, String, RepoSelection, Option<SubmoduleDetail>),
    >)
        ensures
            match target {
                Some((r, repo_path, path, selection, detail)) => remote_action_target(self@) == Some(
                    (
                        r,
                        repo_path@,
                        path@,
                        selection@,
                        match detail {
                            Some(d) => Some(d@),
                            None => None,
                        },
                    ),
                ),
                None => remote_action_target(self@) is None,
            },
    {
        match &self.selected {
            Some(RepoSelection::Repo(r)) => {
                let r = *r;
                if r < self.repos.len() {
                    Some((r, self.repos[r].path.clone(), self.repos[r].path.clone(), RepoSelection::Repo(r), None))
                } else {
                    None
                }
            },
            Some(RepoSelection::Submodule { repo_index, submodule_index, relative_path }) => {
                let (r, k) = (*repo_index, *submodule_index);
                if r < self.repos.len() && k < self.repos[r].submodules.len() {
                    let s = &self.repos[r].submodules[k];
                    Some((
                        r,
                        self.repos[r].path.clone(),
                        s.path.clone(),
                        RepoSelection::Submodule { repo_index: r, submodule_index: k, relative_path: relative_path.clone() },
                        Some(SubmoduleDetail::of(s)),
                    ))
                } else {
                    None
                }
            },
            None => None,
        }
    }

    /// Carries out a command of the test driver; a selection also returns
    /// the background work that loads what it shows.
    pub fn prepare_test_command(&mut self, command: TestCommand) -> (request: Option<TestDetailRequest>)
        ensures
            ({
                let (v, r) = test_command_effect(old(self)@, command@);
                &&& final(self)@ == v
                &&& match request {
                    Some(q) => r == Some(q@),
                    None => r is None,
                }
            }),
    {
        match command {
            TestCommand::SelectRepo(index) => self.prepare_select_repo(index),
            TestCommand::ToggleRepo(index) => {
                self.toggle_repo_expanded(index);
                None
            },
            TestCommand::SelectSubmodule { repo_index, submodule_index } => self.prepare_select_submodule(
                repo_index,
                submodule_index,
            ),
            TestCommand::SetTab(tab) => {
                self.apply_tab_name(tab.as_str());
                None
            },
            TestCommand::SetLogView(view) => {
                self.apply_log_view_name(view.as_str());
                None
            },
        }
    }

    /// Takes in what the background work of a test command loaded.
    pub fn apply_test_detail(&mut self, result: TestDetailResult)
        ensures
            final(self)@ == detail_applied(
                old(self)@,
                result.selection@,
                result.detail,
                result.submodule_detail,
                entry_views(result.log_entries@),
                result.commit_canvas_layout,
            ),
    {
        self.apply_detail(
            result.selection,
            result.detail,
            result.submodule_detail,
            result.log_entries,
            result.commit_canvas_layout,
        );
    }

    fn prepare_select_repo(&mut self, index: usize) -> (request: Option<TestDetailRequest>)
        ensures
            ({
                let (v, r) = test_command_effect(old(self)@, TestCommandView::SelectRepo(index));
                &&& final(self)@ == v
                &&& match request {
                    Some(q) => r == Some(q@),
                    None => r is None,
                }
            }),
    {
        if index >= self.repos.len() {
            return None;
        }
        let path = self.repos[index].path.clone();
        let graph_path = self.repos[index].path.clone();
        self.begin_select(index);
        Some(TestDetailRequest {
            selection: RepoSelection::Repo(index),
            path,
            submodule_detail: None,
            is_initialized: true,
            graph_path: Some(graph_path),
        })
    }

    fn prepare_select_submodule(&mut self, repo_index: usize, submodule_index: usize) -> (request: Option<
        TestDetailRequest,
    >)
        ensures
            ({
                let (v, r) = test_command_effect(
                    old(self)@,
                    TestCommandView::SelectSubmodule { repo_index, submodule_index },
                );
                &&& final(self)@ == v
                &&& match request {
                    Some(q) => r == Some(q@),
                    None => r is None,
                }
            }),
    {
        if repo_index >= self.repos.len() || submodule_index >= self.repos[repo_index].submodules.len() {
            return None;
        }
        let s = &self.repos[repo_index].submodules[submodule_index];
        let path = s.path.clone();
        let relative_path = s.relative_path.clone();
        let submodule_detail = Some(SubmoduleDetail::of(s));
        let is_initialized = s.is_initialized;
        let selection = RepoSelection::Submodule { repo_index, submodule_index, relative_path: relative_path.clone() };
        let graph_path = if is_initialized {
            Some(s.path.clone())
        } else {
            None
        };
        self.begin_select_submodule(repo_index, submodule_index, relative_path);
        Some(TestDetailRequest { selection, path, submodule_detail, is_initialized, graph_path })
    }

    fn fill_default_branches(&mut self)
        ensures
            final(self)@ == (AppView { log_visible_branches: visible_base(old(self)@), ..old(self)@ }),
    {
        if self.log_visible_branches.is_empty() {
            if let Some(detail) = &self.detail {
                self.log_visible_branches = Self::default_log_visible_branches(detail);
            }
        }
        assert(self@ =~= AppView { log_visible_branches: visible_base(old(self)@), ..old(self)@ });
    }

    fn apply_tab_name(&mut self, tab: &str)
        ensures
            final(self)@ == test_command_effect(old(self)@, TestCommandView::SetTab(tab@)).0,
    {
        if same_text(tab, "info") {
            self.set_tab(DetailTab::Info);
        } else if same_text(tab, "log") {
            self.set_tab(DetailTab::GitLog);
        }
    }

    fn apply_log_view_name(&mut self, view: &str)
        ensures
            final(self)@ == test_command_effect(old(self)@, TestCommandView::SetLogView(view@)).0,
    {
        if same_text(view, "list") {
            self.set_log_view_mode(LogViewMode::List);
        } else if same_text(view, "canvas") {
            self.set_log_view_mode(LogViewMode::Canvas);
        }
    }
}

} // verus!
