//! Git operations started from the window: branch actions from the history
//! toolbar, fetching from or resetting to a remote, pushing, initializing a
//! submodule, reloading the history for chosen branches and batch runs.
//!
//! Each operation has a `begin_*` step that checks whether it may start,
//! updates the state and returns what the background work needs, and a
//! `finish_*` step that takes the work's outcome back. The work itself
//! (running `git`, reading repositories) is done by the caller in between.
use vstd::prelude::*;

use crate::app_state::{
    checking_upstream, detail_applied, opt_selection, refresh_applied, remote_action_target,
    selected_submodule_spec, visible_base, AppView, GitMasterApp, RepoSelection,
    SelectionView,
};
use crate::batch::{batch_message, BatchAction, BatchHost, BatchResult};
use crate::git_commands::{checkout_branch, pull_rebase, push, push_set_upstream};
use crate::layout::CommitCanvasLayout;
use crate::models::{opt_text, texts, LogEntry, LogEntryView, RepoDetail, RepoInfo, SubmoduleDetail,
    SubmoduleDetailView};
use crate::sets::{sorted_texts, text_views};
use crate::text::{decimal, push_decimal, push_str, same_text, text_of};

verus! {

/// A branch action from the history toolbar.
pub enum LogAction {
    Checkout(String),
    Pull,
    Push,
}

pub enum LogActionView {
    Checkout(Seq<char>),
    Pull,
    Push,
}

impl View for LogAction {
    type V = LogActionView;

    open spec fn view(&self) -> LogActionView {
        match self {
            LogAction::Checkout(b) => LogActionView::Checkout(b@),
            LogAction::Pull => LogActionView::Pull,
            LogAction::Push => LogActionView::Push,
        }
    }
}

pub open spec fn opt_detail_view(d: Option<SubmoduleDetail>) -> Option<SubmoduleDetailView> {
    match d {
        Some(x) => Some(x@),
        None => None,
    }
}

/// Whether `v` still shows the selection `selection`, operating on `target`.
pub open spec fn still_targets(v: AppView, target: Seq<char>, selection: SelectionView) -> bool {
    match remote_action_target(v) {
        Some((_, _, path, current, _)) => path == target && current == selection,
        None => false,
    }
}

/// The status shown while a branch action runs.
pub open spec fn log_action_status(action: LogActionView, expected_branch: Seq<char>) -> Seq<char> {
    match action {
        LogActionView::Checkout(b) => "Switching to "@ + b + "\u{2026}"@,
        LogActionView::Pull => "Pulling "@ + expected_branch + "\u{2026}"@,
        LogActionView::Push => "Pushing "@ + expected_branch + "\u{2026}"@,
    }
}

/// A branch action may start when nothing runs, no detail is loading, the
/// selection names a repository or submodule and its detail is shown.
pub open spec fn log_action_allowed(v: AppView) -> bool {
    !v.busy && !v.loading_detail && remote_action_target(v) is Some && v.detail is Some
}

/// The branches shown once a branch action starts: checking out a branch
/// also shows that branch.
pub open spec fn log_action_branches(v: AppView, action: LogActionView) -> Set<Seq<char>> {
    match action {
        LogActionView::Checkout(b) => visible_base(v).insert(b),
        _ => v.log_visible_branches,
    }
}

pub open spec fn log_action_started(v: AppView, action: LogActionView) -> AppView {
    AppView {
        log_visible_branches: log_action_branches(v, action),
        busy: true,
        detail_running: false,
        context_menu: None,
        status_message: Some(log_action_status(action, v.detail.unwrap().current_branch@)),
        operation_running: true,
        ..v
    }
}

/// What the background work of a branch action needs.
pub struct LogActionPlan {
    pub action: LogAction,
    pub repo_index: usize,
    pub root: String,
    pub target: String,
    pub selection: RepoSelection,
    pub submodule_detail: Option<SubmoduleDetail>,
    pub expected_branch: String,
    pub branches: Vec<String>,
}

/// The plan matches where the action applies in `v`.
pub open spec fn plan_targets(
    v: AppView,
    repo_index: usize,
    root: Seq<char>,
    target: Seq<char>,
    selection: SelectionView,
    submodule_detail: Option<SubmoduleDetailView>,
) -> bool {
    remote_action_target(v) == Some((repo_index, root, target, selection, submodule_detail))
}

pub open spec fn result_view(r: Result<String, String>) -> Result<Seq<char>, Seq<char>> {
    match r {
        Ok(s) => Ok(s@),
        Err(e) => Err(e@),
    }
}

pub open spec fn log_action_finished(
    v: AppView,
    plan: LogActionPlan,
    result: Result<Seq<char>, Seq<char>>,
    refreshed: Option<RepoInfo>,
    detail: Option<RepoDetail>,
    layout: Option<CommitCanvasLayout>,
) -> AppView {
    let v1 = AppView {
        busy: false,
        status_message: Some(
            match result {
                Ok(_) => "Branch operation complete"@,
                Err(e) => "Branch operation failed: "@ + e,
            },
        ),
        ..v
    };
    let v2 = refresh_applied(v1, plan.repo_index as int, plan.root@, refreshed);
    if still_targets(v2, plan.target@, plan.selection@) {
        detail_applied(v2, plan.selection@, detail, plan.submodule_detail, Seq::empty(), layout)
    } else {
        v2
    }
}

/// The message of a branch-changed refusal.
pub open spec fn branch_changed_message() -> Seq<char> {
    "Branch changed; reload the repository before retrying"@
}

/// The `git` arguments of a branch action, refused when the checked-out
/// branch is no longer the one the action was started on.
pub open spec fn log_action_args(action: LogActionView, current: Option<Seq<char>>, expected: Seq<char>) -> Result<
    Seq<Seq<char>>,
    Seq<char>,
> {
    if current != Some(expected) {
        Err(branch_changed_message())
    } else {
        match action {
            LogActionView::Checkout(b) => Ok(seq!["checkout"@, b]),
            LogActionView::Pull => Ok(seq!["pull"@, "--rebase"@]),
            LogActionView::Push => Ok(seq!["push"@]),
        }
    }
}

pub fn log_action_command(action: &LogAction, current: &Option<String>, expected: &str) -> (command: Result<
    Vec<String>,
    String,
>)
    ensures
        match command {
            Ok(args) => log_action_args(action@, opt_text(*current), expected@) == Ok::<
                Seq<Seq<char>>,
                Seq<char>,
            >(texts(args@)),
            Err(e) => log_action_args(action@, opt_text(*current), expected@) == Err::<
                Seq<Seq<char>>,
                Seq<char>,
            >(e@),
        },
{
    let unchanged = match current {
        Some(c) => same_text(c.as_str(), expected),
        None => false,
    };
    if !unchanged {
        return Err(text_of("Branch changed; reload the repository before retrying"));
    }
    match action {
        LogAction::Checkout(b) => Ok(checkout_branch(b.as_str())),
        LogAction::Pull => Ok(pull_rebase()),
        LogAction::Push => Ok(push()),
    }
}

/// Remote fetch or reset: what the background work needs.
pub struct RemoteActionPlan {
    pub repo_index: usize,
    pub root: String,
    pub target: String,
    pub selection: RepoSelection,
    pub submodule_detail: Option<SubmoduleDetail>,
    pub remote: String,
    pub branch: String,
    pub reset: bool,
    pub branches: Vec<String>,
}

/// What a fetch from, or reset to, `remote` started in `v` hands to the
/// background work: where it applies, the remote, the current branch, and
/// the branches the history shows, in order.
pub open spec fn remote_plan_for(v: AppView, p: RemoteActionPlan, remote: Seq<char>, reset: bool) -> bool {
    &&& plan_targets(v, p.repo_index, p.root@, p.target@, p.selection@, opt_detail_view(p.submodule_detail))
    &&& p.remote@ == remote
    &&& p.branch@ == detail_branch(v)
    &&& p.reset == reset
    &&& text_views(p.branches@).to_set() == v.log_visible_branches
    &&& sorted_texts(text_views(p.branches@))
}

/// The current branch as the detail shows it, empty without a detail.
pub open spec fn detail_branch(v: AppView) -> Seq<char> {
    match v.detail {
        Some(d) => d.current_branch@,
        None => Seq::empty(),
    }
}

pub open spec fn remote_action_status(remote: Seq<char>, branch: Seq<char>, reset: bool) -> Seq<char> {
    if reset {
        "Resetting to "@ + remote + "/"@ + branch + "\u{2026}"@
    } else {
        "Fetching "@ + remote + "\u{2026}"@
    }
}

/// Starting a fetch from, or a reset to, `remote`: refused without a
/// target, or for a reset without a known branch.
pub open spec fn remote_action_started(v: AppView, remote: Seq<char>, reset: bool) -> (AppView, bool) {
    if remote_action_target(v) is None {
        (AppView { busy: false, ..v }, false)
    } else if reset && detail_branch(v).len() == 0 {
        (AppView { busy: false, status_message: Some("Cannot determine the current branch"@), ..v }, false)
    } else {
        (
            AppView {
                busy: true,
                status_message: Some(remote_action_status(remote, detail_branch(v), reset)),
                operation_running: true,
                ..v
            },
            true,
        )
    }
}

pub open spec fn remote_outcome_applied(
    v: AppView,
    plan: RemoteActionPlan,
    result: Result<Seq<char>, Seq<char>>,
    refreshed: Option<RepoInfo>,
    detail: Option<RepoDetail>,
    entries: Seq<LogEntryView>,
    layout: Option<CommitCanvasLayout>,
) -> AppView {
    let v1 = AppView {
        status_message: Some(
            match result {
                Ok(_) => if plan.reset {
                    "Reset to remote complete"@
                } else {
                    "Fetch complete; Git Log refreshed"@
                },
                Err(e) => "Remote action failed: "@ + e,
            },
        ),
        ..v
    };
    let v2 = refresh_applied(v1, plan.repo_index as int, plan.root@, refreshed);
    if still_targets(v2, plan.target@, plan.selection@) {
        detail_applied(v2, plan.selection@, detail, plan.submodule_detail, entries, layout)
    } else {
        v2
    }
}

/// A fetch or reset taken back: its outcome applied, and the operation over.
pub open spec fn remote_action_finished(
    v: AppView,
    plan: RemoteActionPlan,
    result: Result<Seq<char>, Seq<char>>,
    refreshed: Option<RepoInfo>,
    detail: Option<RepoDetail>,
    entries: Seq<LogEntryView>,
    layout: Option<CommitCanvasLayout>,
) -> AppView {
    AppView { busy: false, ..remote_outcome_applied(v, plan, result, refreshed, detail, entries, layout) }
}

/// A reset waiting for the user's confirmation, with the detail it was
/// asked for (path and branch).
pub struct ResetConfirmation {
    pub remote: String,
    pub expected: Option<(String, String)>,
}

pub open spec fn detail_key(v: AppView) -> Option<(Seq<char>, Seq<char>)> {
    match v.detail {
        Some(d) => Some((d.path@, d.current_branch@)),
        None => None,
    }
}

pub open spec fn key_view(k: Option<(String, String)>) -> Option<(Seq<char>, Seq<char>)> {
    match k {
        Some((a, b)) => Some((a@, b@)),
        None => None,
    }
}

/// A push about to check its branch's upstream.
pub struct PushCheck {
    pub repo_index: usize,
    pub path: String,
    pub branch: String,
}

/// A push about to run.
pub struct PushPlan {
    pub repo_index: usize,
    pub path: String,
    pub branch: String,
    pub set_upstream: bool,
}

/// A reload of the detail of repository `repo_index` at `path`, showing
/// the history of `branches`.
pub struct DetailReload {
    pub repo_index: usize,
    pub path: String,
    pub branches: Vec<String>,
}

/// The detail of a pushed repository is read again when that repository
/// is selected and its row still shows `path`.
pub open spec fn pushed_reload(v: AppView, index: int, path: Seq<char>) -> (AppView, bool) {
    if v.selected == Some(SelectionView::Repo(index as usize)) && 0 <= index < v.repos.len()
        && v.repos[index].path@ == path {
        (AppView { loading_detail: true, detail_running: true, ..v }, true)
    } else {
        (v, false)
    }
}

pub open spec fn push_outcome(result: Result<Seq<char>, Seq<char>>) -> Seq<char> {
    match result {
        Ok(m) => if m.len() == 0 {
            "Push done"@
        } else {
            "Push: "@ + m
        },
        Err(e) => "Push failed: "@ + e,
    }
}

pub open spec fn push_finished(
    v: AppView,
    plan: PushPlan,
    result: Result<Seq<char>, Seq<char>>,
    refreshed: Option<RepoInfo>,
) -> (AppView, bool) {
    let v1 = AppView { status_message: Some(push_outcome(result)), ..v };
    let v2 = refresh_applied(v1, plan.repo_index as int, plan.path@, refreshed);
    let (v3, reload) = pushed_reload(v2, plan.repo_index as int, plan.path@);
    (AppView { busy: false, ..v3 }, reload)
}

/// A submodule initialization about to run.
pub struct SubmoduleInitPlan {
    pub repo_index: usize,
    pub submodule_index: usize,
    pub selected_relative_path: String,
    pub repo_path: String,
    pub relative_path: String,
}

/// The reload of a submodule's detail once it is initialized.
pub struct SubmoduleReload {
    pub selection: RepoSelection,
    pub path: String,
    pub submodule_detail: Option<SubmoduleDetail>,
}

pub open spec fn init_outcome(result: Result<Seq<char>, Seq<char>>) -> Seq<char> {
    match result {
        Ok(m) => if m.len() == 0 {
            "Submodule initialized"@
        } else {
            "Submodule initialized: "@ + m
        },
        Err(e) => "Submodule init failed: "@ + e,
    }
}

/// After an initialization succeeded, the selected submodule's detail is
/// read again when the same submodule (by relative path) is still selected.
pub open spec fn init_reload(v: AppView, selected_relative_path: Seq<char>) -> bool {
    match selected_submodule_spec(v) {
        Some((_, _, rel)) => rel == selected_relative_path,
        None => false,
    }
}

/// What reloading the submodule selected in `v` reads: that selection, the
/// submodule's path, and what the detail panel shows of the submodule.
pub open spec fn submodule_reload_for(v: AppView, r: SubmoduleReload) -> bool {
    match selected_submodule_spec(v) {
        Some((ri, k, rel)) => {
            let sub = v.repos[ri as int].submodules@[k as int];
            &&& r.selection@ == (SelectionView::Submodule { repo_index: ri, submodule_index: k, relative_path: rel })
            &&& r.path@ == sub.path@
            &&& opt_detail_view(r.submodule_detail) == Some(
                SubmoduleDetailView {
                    name: sub.name@,
                    path: sub.path@,
                    url: opt_text(sub.url),
                    is_initialized: sub.is_initialized,
                },
            )
        },
        None => false,
    }
}

/// The submodule a reload is for depends only on the selection and the rows.
proof fn lemma_submodule_reload_same(a: AppView, b: AppView, r: SubmoduleReload)
    requires
        a.selected == b.selected,
        a.repos == b.repos,
    ensures
        submodule_reload_for(a, r) == submodule_reload_for(b, r),
{
}

pub open spec fn init_finished(
    v: AppView,
    plan: SubmoduleInitPlan,
    result: Result<Seq<char>, Seq<char>>,
    refreshed: Option<RepoInfo>,
) -> (AppView, bool) {
    let v1 = AppView { status_message: Some(init_outcome(result)), ..v };
    let v2 = if result is Ok {
        refresh_applied(v1, plan.repo_index as int, plan.repo_path@, refreshed)
    } else {
        v1
    };
    let reload = result is Ok && init_reload(v2, plan.selected_relative_path@);
    let v3 = if reload {
        AppView { loading_detail: true, detail_running: true, ..v2 }
    } else {
        v2
    };
    (AppView { busy: false, ..v3 }, reload)
}

/// The path whose history the selection shows: the repository's, or the
/// submodule's.
pub open spec fn selection_path(v: AppView) -> Option<Seq<char>> {
    match v.selected {
        Some(SelectionView::Repo(i)) => if i < v.repos.len() {
            Some(v.repos[i as int].path@)
        } else {
            None
        },
        Some(SelectionView::Submodule { repo_index, submodule_index, .. }) => {
            if repo_index < v.repos.len() && submodule_index < v.repos[repo_index as int].submodules@.len() {
                Some(v.repos[repo_index as int].submodules@[submodule_index as int].path@)
            } else {
                None
            }
        },
        None => None,
    }
}

/// A reload of the history for the chosen branches.
pub struct HistoryReload {
    pub selection: RepoSelection,
    pub path: String,
    pub branches: Vec<String>,
}

pub open spec fn history_reload_status(count: nat) -> Seq<char> {
    "Loading "@ + decimal(count) + " branch history\u{2026}"@
}

/// The history of the chosen branches taken in, unless the selection
/// changed meanwhile.
pub open spec fn history_applied(v: AppView, selection: SelectionView, layout: Option<CommitCanvasLayout>) -> AppView {
    if v.selected != Some(selection) {
        v
    } else {
        AppView {
            log_entries: match layout {
                Some(l) => crate::models::entry_views(l.list.entries@),
                None => Seq::empty(),
            },
            commit_canvas_layout: layout,
            canvas_interaction: false,
            status_message: Some("Git Log updated"@),
            ..v
        }
    }
}

/// A batch run about to start, with the workspace directory it was
/// started in.
pub struct BatchRun {
    pub host: BatchHost,
    pub parent: Option<String>,
}

pub open spec fn batch_status(action: BatchAction) -> Seq<char> {
    match action {
        BatchAction::Fetch => "Fetching all projects and remotes\u{2026}"@,
        BatchAction::SwitchMain => "Switching all projects to main branch\u{2026}"@,
    }
}

pub open spec fn batch_allowed(v: AppView) -> bool {
    !v.busy && !v.scanning && v.repos.len() > 0
}

pub open spec fn repo_paths(repos: Seq<RepoInfo>) -> Seq<Seq<char>> {
    repos.map_values(|r: RepoInfo| r.path@)
}

/// The first row showing the repository at `path`.
pub open spec fn repo_position(repos: Seq<RepoInfo>, path: Seq<char>) -> Option<int>
    decreases repos.len(),
{
    if repos.len() == 0 {
        None
    } else if repo_position(repos.drop_last(), path) is Some {
        repo_position(repos.drop_last(), path)
    } else if repos.last().path@ == path {
        Some(repos.len() - 1)
    } else {
        None
    }
}

/// One refreshed repository of a batch run taken in: the row that shows
/// its path is updated, and its detail read again when it is selected.
pub open spec fn batch_refresh_step(v: AppView, path: Seq<char>, refreshed: Option<RepoInfo>) -> (AppView, Option<int>) {
    match repo_position(v.repos, path) {
        Some(i) => {
            let (w, reload) = pushed_reload(refresh_applied(v, i, path, refreshed), i, path);
            (w, if reload { Some(i) } else { None })
        },
        None => (v, None),
    }
}

/// The refreshed repositories of a batch run taken in one after another,
/// and the rows whose detail is read again.
pub open spec fn batch_refreshes(v: AppView, items: Seq<(String, Option<RepoInfo>)>) -> (AppView, Seq<int>)
    decreases items.len(),
{
    if items.len() == 0 {
        (v, Seq::empty())
    } else {
        let (w, reloads) = batch_refreshes(v, items.drop_last());
        let (x, reload) = batch_refresh_step(w, items.last().0@, items.last().1);
        (
            x,
            match reload {
                Some(i) => reloads.push(i),
                None => reloads,
            },
        )
    }
}

pub open spec fn batch_finished(
    v: AppView,
    parent: Option<Seq<char>>,
    result: BatchResult,
    log_path: Seq<char>,
) -> (AppView, Seq<int>) {
    let v1 = AppView { busy: false, ..v };
    if v1.parent_dir == parent {
        let v2 = AppView {
            status_message: Some(
                batch_message(
                    result.action,
                    result.succeeded as nat,
                    result.failed as nat,
                    result.skipped as nat,
                    log_path,
                ),
            ),
            ..v1
        };
        batch_refreshes(v2, result.refreshed@)
    } else {
        (v1, Seq::empty())
    }
}

pub proof fn lemma_repo_position(repos: Seq<RepoInfo>, path: Seq<char>)
    ensures
        match repo_position(repos, path) {
            Some(i) => 0 <= i < repos.len() && repos[i].path@ == path && forall|j: int|
                0 <= j < i ==> (#[trigger] repos[j]).path@ != path,
            None => forall|j: int| 0 <= j < repos.len() ==> (#[trigger] repos[j]).path@ != path,
        },
    decreases repos.len(),
{
    if repos.len() > 0 {
        lemma_repo_position(repos.drop_last(), path);
        assert forall|j: int| 0 <= j < repos.len() - 1 implies repos.drop_last()[j] == repos[j] by {}
    }
}

/// The status shown when a directory or terminal cannot be opened.
pub open spec fn open_failure_message(terminal: bool, error: Seq<char>) -> Seq<char> {
    "Cannot open "@ + (if terminal {
        "terminal"@
    } else {
        "directory"@
    }) + ": "@ + error
}

/// `git submodule update --init -- <path>`: initialize one submodule.
pub fn submodule_init_command(relative_path: &str) -> (args: Vec<String>)
    ensures
        texts(args@) == seq!["submodule"@, "update"@, "--init"@, "--"@, relative_path@],
{
    let args = vec![text_of("submodule"), text_of("update"), text_of("--init"), text_of("--"), text_of(relative_path)];
    assert(texts(args@) =~= seq!["submodule"@, "update"@, "--init"@, "--"@, relative_path@]);
    args
}

/// The `git` arguments of a push: with `-u origin <branch>` when the
/// upstream branch is to be created.
pub fn push_command(plan: &PushPlan) -> (args: Vec<String>)
    ensures
        texts(args@) == if plan.set_upstream {
            seq!["push"@, "-u"@, "origin"@, plan.branch@]
        } else {
            seq!["push"@]
        },
{
    if plan.set_upstream {
        push_set_upstream(plan.branch.as_str())
    } else {
        push()
    }
}

fn outcome_text(result: &Result<String, String>, done: &str, ok_prefix: &str, err_prefix: &str) -> (text: String)
    ensures
        text@ == match result_view(*result) {
            Ok(m) => if m.len() == 0 {
                done@
            } else {
                ok_prefix@ + m
            },
            Err(e) => err_prefix@ + e,
        },
{
    match result {
        Ok(m) => if m.as_str().is_empty() {
            text_of(done)
        } else {
            let mut s = text_of(ok_prefix);
            push_str(&mut s, m.as_str());
            s
        },
        Err(e) => {
            let mut s = text_of(err_prefix);
            push_str(&mut s, e.as_str());
            s
        },
    }
}

fn find_repo(repos: &Vec<RepoInfo>, path: &str) -> (found: Option<usize>)
    ensures
        match found {
            Some(i) => repo_position(repos@, path@) == Some(i as int),
            None => repo_position(repos@, path@) is None,
        },
{
    let mut k: usize = 0;
    while k < repos.len()
        invariant
            k <= repos@.len(),
            forall|j: int| 0 <= j < k ==> (#[trigger] repos@[j]).path@ != path@,
        decreases repos.len() - k,
    {
        if same_text(repos[k].path.as_str(), path) {
            proof {
                lemma_repo_position(repos@, path@);
                match repo_position(repos@, path@) {
                    Some(p) => {
                        if p < k {
                            assert(repos@[p].path@ == path@);
                        }
                        if p > k {
                            assert(repos@[k as int].path@ == path@);
                        }
                    },
                    None => {
                        assert(repos@[k as int].path@ == path@);
                    },
                }
            }
            return Some(k);
        }
        k = k + 1;
    }
    proof {
        lemma_repo_position(repos@, path@);
        if let Some(p) = repo_position(repos@, path@) {
            assert(repos@[p].path@ == path@);
        }
    }
    None
}

/// Initializing a submodule from its placeholder lane on the canvas: what
/// the background work needs.
pub struct CanvasInitPlan {
    pub repo_index: usize,
    pub root: String,
    pub target: String,
    pub selection: RepoSelection,
    pub submodule_detail: Option<SubmoduleDetail>,
    pub relative_path: String,
    pub branches: Vec<String>,
}

/// Initialization from the canvas may start when nothing runs and the
/// selection operates on `path`.
pub open spec fn canvas_init_allowed(v: AppView, path: Seq<char>) -> bool {
    &&& !v.busy
    &&& remote_action_target(v) matches Some((_, _, target, _, _)) && target == path
}

pub open spec fn canvas_init_started(v: AppView, relative: Seq<char>) -> AppView {
    AppView {
        busy: true,
        detail_running: false,
        status_message: Some("Initializing "@ + relative + "\u{2026}"@),
        operation_running: true,
        ..v
    }
}

pub open spec fn canvas_init_finished(
    v: AppView,
    plan: CanvasInitPlan,
    result: Result<Seq<char>, Seq<char>>,
    refreshed: Option<RepoInfo>,
    detail: Option<RepoDetail>,
    entries: Seq<LogEntryView>,
    layout: Option<CommitCanvasLayout>,
) -> AppView {
    let v1 = refresh_applied(v, plan.repo_index as int, plan.root@, refreshed);
    let v2 = if still_targets(v1, plan.target@, plan.selection@) {
        detail_applied(v1, plan.selection@, detail, plan.submodule_detail, entries, layout)
    } else {
        v1
    };
    AppView {
        busy: false,
        status_message: Some(
            match result {
                Ok(_) => "Submodule initialized; canvas refreshed"@,
                Err(e) => "Submodule init failed: "@ + e,
            },
        ),
        ..v2
    }
}

proof fn lemma_batch_refreshes_keep_busy(v: AppView, items: Seq<(String, Option<RepoInfo>)>)
    ensures
        batch_refreshes(v, items).0.busy == v.busy,
    decreases items.len(),
{
    if items.len() > 0 {
        lemma_batch_refreshes_keep_busy(v, items.drop_last());
    }
}

/// While an operation runs, no other one starts: branch actions, batch
/// runs, submodule initialization and changes of the shown branches wait.
pub proof fn busy_blocks_new_operations(v: AppView, path: Seq<char>, branch: Seq<char>)
    requires
        v.busy,
    ensures
        !log_action_allowed(v),
        !batch_allowed(v),
        !canvas_init_allowed(v, path),
        crate::app_state::log_branch_toggled(v, branch) == (v, false),
{
}

/// When the outcome of an operation comes back, the window is no longer
/// busy, whatever the outcome.
pub proof fn outcomes_end_the_operation(
    v: AppView,
    result: Result<Seq<char>, Seq<char>>,
    refreshed: Option<RepoInfo>,
    detail: Option<RepoDetail>,
    entries: Seq<LogEntryView>,
    layout: Option<CommitCanvasLayout>,
    log_plan: LogActionPlan,
    remote_plan: RemoteActionPlan,
    push_plan: PushPlan,
    init_plan: SubmoduleInitPlan,
    canvas_plan: CanvasInitPlan,
    parent: Option<Seq<char>>,
    batch: BatchResult,
    log_path: Seq<char>,
)
    ensures
        !log_action_finished(v, log_plan, result, refreshed, detail, layout).busy,
        !remote_action_finished(v, remote_plan, result, refreshed, detail, entries, layout).busy,
        !push_finished(v, push_plan, result, refreshed).0.busy,
        !init_finished(v, init_plan, result, refreshed).0.busy,
        !canvas_init_finished(v, canvas_plan, result, refreshed, detail, entries, layout).busy,
        !batch_finished(v, parent, batch, log_path).0.busy,
{
    let v1 = AppView { busy: false, ..v };
    if v1.parent_dir == parent {
        let v2 = AppView {
            status_message: Some(
                batch_message(batch.action, batch.succeeded as nat, batch.failed as nat, batch.skipped as nat, log_path),
            ),
            ..v1
        };
        lemma_batch_refreshes_keep_busy(v2, batch.refreshed@);
    }
}


fn remote_status_text(remote: &str, branch: &str, reset: bool) -> (text: String)
    ensures
        text@ == remote_action_status(remote@, branch@, reset),
{
    if reset {
        let mut s = text_of("Resetting to ");
        push_str(&mut s, remote);
        push_str(&mut s, "/");
        push_str(&mut s, branch);
        push_str(&mut s, "\u{2026}");
        s
    } else {
        let mut s = text_of("Fetching ");
        push_str(&mut s, remote);
        push_str(&mut s, "\u{2026}");
        s
    }
}

fn remote_outcome_text(result: &Result<String, String>, reset: bool) -> (text: String)
    ensures
        text@ == match result_view(*result) {
            Ok(_) => if reset {
                "Reset to remote complete"@
            } else {
                "Fetch complete; Git Log refreshed"@
            },
            Err(e) => "Remote action failed: "@ + e,
        },
{
    match result {
        Ok(_) => if reset {
            text_of("Reset to remote complete")
        } else {
            text_of("Fetch complete; Git Log refreshed")
        },
        Err(e) => {
            let mut s = text_of("Remote action failed: ");
            push_str(&mut s, e.as_str());
            s
        },
    }
}

impl GitMasterApp {
    fn target_still(&self, target: &String, selection: &RepoSelection) -> (same: bool)
        ensures
            same == still_targets(self@, target@, selection@),
    {
        match self.selected_remote_action_target() {
            Some((_, _, path, current, _)) => same_text(path.as_str(), target.as_str()) && current.same(selection),
            None => false,
        }
    }

    /// Starts a branch action from the history toolbar.
    pub fn begin_log_action(&mut self, action: LogAction) -> (plan: Option<LogActionPlan>)
        ensures
            log_action_allowed(old(self)@) ==> {
                &&& final(self)@ == log_action_started(old(self)@, action@)
                &&& plan matches Some(p) && {
                    &&& p.action@ == action@
                    &&& plan_targets(
                        old(self)@,
                        p.repo_index,
                        p.root@,
                        p.target@,
                        p.selection@,
                        opt_detail_view(p.submodule_detail),
                    )
                    &&& p.expected_branch@ == old(self)@.detail.unwrap().current_branch@
                    &&& text_views(p.branches@).to_set() == log_action_branches(old(self)@, action@)
                    &&& sorted_texts(text_views(p.branches@))
                }
            },
            !log_action_allowed(old(self)@) ==> final(self)@ == old(self)@ && plan is None,
    {
        if self.busy || self.loading_detail {
            return None;
        }
        let (repo_index, root, target, selection, submodule_detail) = match self.selected_remote_action_target() {
            Some(t) => t,
            None => return None,
        };
        let expected_branch = match &self.detail {
            Some(detail) => detail.current_branch.clone(),
            None => return None,
        };
        let ghost v0 = self@;
        if let LogAction::Checkout(branch) = &action {
            if self.log_visible_branches.is_empty() {
                if let Some(detail) = &self.detail {
                    self.log_visible_branches = Self::default_log_visible_branches(detail);
                }
            }
            self.log_visible_branches.insert(branch.clone());
        }
        let branches = self.log_visible_branches.to_vec();
        self.busy = true;
        self.detail_running = false;
        self.close_context_menu();
        let status = match &action {
            LogAction::Checkout(branch) => {
                let mut s = text_of("Switching to ");
                push_str(&mut s, branch.as_str());
                push_str(&mut s, "\u{2026}");
                s
            },
            LogAction::Pull => {
                let mut s = text_of("Pulling ");
                push_str(&mut s, expected_branch.as_str());
                push_str(&mut s, "\u{2026}");
                s
            },
            LogAction::Push => {
                let mut s = text_of("Pushing ");
                push_str(&mut s, expected_branch.as_str());
                push_str(&mut s, "\u{2026}");
                s
            },
        };
        self.set_status(status);
        self.operation_running = true;
        assert(self@ =~= log_action_started(v0, action@));
        Some(LogActionPlan {
            action,
            repo_index,
            root,
            target,
            selection,
            submodule_detail,
            expected_branch,
            branches,
        })
    }

    /// Takes back the outcome of a branch action: the status, the
    /// repository read again and, when the same selection is still shown,
    /// its detail and commit graph.
    pub fn finish_log_action(
        &mut self,
        plan: LogActionPlan,
        result: Result<String, String>,
        refreshed: Option<RepoInfo>,
        detail: Option<RepoDetail>,
        layout: Option<CommitCanvasLayout>,
    )
        ensures
            final(self)@ == log_action_finished(old(self)@, plan, result_view(result), refreshed, detail, layout),
    {
        self.busy = false;
        let status = match &result {
            Ok(_) => text_of("Branch operation complete"),
            Err(e) => {
                let mut s = text_of("Branch operation failed: ");
                push_str(&mut s, e.as_str());
                s
            },
        };
        self.set_status(status);
        self.apply_repo_refresh(plan.repo_index, plan.root.as_str(), refreshed);
        if self.target_still(&plan.target, &plan.selection) {
            proof {
                entry_views_empty();
            }
            self.apply_detail(plan.selection, detail, plan.submodule_detail, Vec::new(), layout);
        }
    }

    /// Starts fetching from `remote` into the selected repository or
    /// submodule, unless an operation runs.
    pub fn fetch_selected_remote(&mut self, remote: String) -> (plan: Option<RemoteActionPlan>)
        ensures
            old(self)@.busy ==> final(self)@ == old(self)@ && plan is None,
            !old(self)@.busy ==> {
                let (w, started) = remote_action_started(old(self)@, remote@, false);
                &&& final(self)@ == w
                &&& started == plan is Some
                &&& plan matches Some(p) ==> remote_plan_for(old(self)@, p, remote@, false)
            },
    {
        if self.busy {
            return None;
        }
        self.perform_remote_action(remote, false)
    }

    /// Starts a fetch or reset; refused without a target, or for a reset
    /// when the current branch is unknown.
    #[verifier::rlimit(30)]
    pub fn perform_remote_action(&mut self, remote: String, reset: bool) -> (plan: Option<RemoteActionPlan>)
        ensures
            ({
                let (w, started) = remote_action_started(old(self)@, remote@, reset);
                &&& final(self)@ == w
                &&& started == plan is Some
                &&& plan matches Some(p) ==> remote_plan_for(old(self)@, p, remote@, reset)
            }),
    {
        let ghost v0 = self@;
        let (repo_index, root, target, selection, submodule_detail) = match self.selected_remote_action_target() {
            Some(t) => t,
            None => {
                self.busy = false;
                assert(self@ =~= AppView { busy: false, ..v0 });
                return None;
            },
        };
        let branch = match &self.detail {
            Some(detail) => detail.current_branch.clone(),
            None => String::new(),
        };
        let branches = self.log_visible_branches.to_vec();
        if reset && branch.as_str().is_empty() {
            self.busy = false;
            self.set_status(text_of("Cannot determine the current branch"));
            return None;
        }
        self.busy = true;
        let status = remote_status_text(remote.as_str(), branch.as_str(), reset);
        self.set_status(status);
        self.operation_running = true;
        assert(self@ =~= remote_action_started(v0, remote@, reset).0);
        Some(RemoteActionPlan {
            repo_index,
            root,
            target,
            selection,
            submodule_detail,
            remote,
            branch,
            reset,
            branches,
        })
    }

    /// Asks for confirmation of a reset to `remote`; nothing happens while
    /// an operation runs, a detail loads or nothing is selected.
    pub fn request_reset(&mut self, remote: String) -> (confirmation: Option<ResetConfirmation>)
        ensures
            (old(self)@.busy || old(self)@.loading_detail || remote_action_target(old(self)@) is None)
                ==> final(self)@ == old(self)@ && confirmation is None,
            !(old(self)@.busy || old(self)@.loading_detail || remote_action_target(old(self)@) is None) ==> {
                &&& final(self)@ == (AppView {
                    busy: true,
                    status_message: Some("Confirm reset to "@ + remote@ + "\u{2026}"@),
                    remote_action_prompt_running: true,
                    ..old(self)@
                })
                &&& confirmation matches Some(c) && c.remote@ == remote@ && key_view(c.expected) == detail_key(
                    old(self)@,
                )
            },
    {
        if self.busy || self.loading_detail || self.selected_remote_action_target().is_none() {
            return None;
        }
        let ghost v0 = self@;
        self.busy = true;
        let mut status = text_of("Confirm reset to ");
        push_str(&mut status, remote.as_str());
        push_str(&mut status, "\u{2026}");
        self.set_status(status);
        self.remote_action_prompt_running = true;
        let expected = match &self.detail {
            Some(detail) => Some((detail.path.clone(), detail.current_branch.clone())),
            None => None,
        };
        assert(self@ =~= AppView {
            busy: true,
            status_message: Some("Confirm reset to "@ + remote@ + "\u{2026}"@),
            remote_action_prompt_running: true,
            ..v0
        });
        Some(ResetConfirmation { remote, expected })
    }

    /// The user's answer to a reset confirmation: the reset starts when it
    /// was confirmed and the same detail is still shown, fully loaded.
    pub fn answer_reset(&mut self, confirmation: ResetConfirmation, confirmed: bool) -> (plan: Option<
        RemoteActionPlan,
    >)
        ensures
            (confirmed && !old(self)@.loading_detail && detail_key(old(self)@) == key_view(confirmation.expected))
                ==> {
                let (w, started) = remote_action_started(old(self)@, confirmation.remote@, true);
                &&& final(self)@ == w
                &&& started == plan is Some
                &&& plan matches Some(p) ==> remote_plan_for(old(self)@, p, confirmation.remote@, true)
            },
            !(confirmed && !old(self)@.loading_detail && detail_key(old(self)@) == key_view(confirmation.expected))
                ==> plan is None && final(self)@ == (AppView {
                busy: false,
                status_message: Some("Remote reset cancelled"@),
                ..old(self)@
            }),
    {
        let same_detail = match (&self.detail, &confirmation.expected) {
            (Some(detail), Some((path, branch))) => same_text(detail.path.as_str(), path.as_str()) && same_text(
                detail.current_branch.as_str(),
                branch.as_str(),
            ),
            (None, None) => true,
            _ => false,
        };
        if confirmed && !self.loading_detail && same_detail {
            self.perform_remote_action(confirmation.remote, true)
        } else {
            let ghost v0 = self@;
            self.busy = false;
            self.set_status(text_of("Remote reset cancelled"));
            assert(self@ =~= AppView { busy: false, status_message: Some("Remote reset cancelled"@), ..v0 });
            None
        }
    }

    /// Takes back the outcome of a fetch or reset.
    pub fn finish_remote_action(
        &mut self,
        plan: RemoteActionPlan,
        result: Result<String, String>,
        refreshed: Option<RepoInfo>,
        detail: Option<RepoDetail>,
        log_entries: Vec<LogEntry>,
        layout: Option<CommitCanvasLayout>,
    )
        ensures
            final(self)@ == remote_action_finished(
                old(self)@,
                plan,
                result_view(result),
                refreshed,
                detail,
                crate::models::entry_views(log_entries@),
                layout,
            ),
    {
        self.take_remote_outcome(plan, result, refreshed, detail, log_entries, layout);
        let ghost v3 = self@;
        self.busy = false;
        assert(self@ =~= AppView { busy: false, ..v3 });
    }

    fn take_remote_outcome(
        &mut self,
        plan: RemoteActionPlan,
        result: Result<String, String>,
        refreshed: Option<RepoInfo>,
        detail: Option<RepoDetail>,
        log_entries: Vec<LogEntry>,
        layout: Option<CommitCanvasLayout>,
    )
        ensures
            final(self)@ == remote_outcome_applied(
                old(self)@,
                plan,
                result_view(result),
                refreshed,
                detail,
                crate::models::entry_views(log_entries@),
                layout,
            ),
    {
        let status = remote_outcome_text(&result, plan.reset);
        self.set_status(status);
        self.apply_repo_refresh(plan.repo_index, plan.root.as_str(), refreshed);
        if self.target_still(&plan.target, &plan.selection) {
            self.apply_detail(plan.selection, detail, plan.submodule_detail, log_entries, layout);
        }
    }

    /// Starts a push of repository `repo_index`: first its upstream is
    /// checked.
    pub fn begin_push(&mut self, repo_index: usize) -> (check: Option<PushCheck>)
        ensures
            repo_index < old(self)@.repos.len() ==> {
                &&& final(self)@ == (AppView {
                    busy: true,
                    status_message: Some(checking_upstream()),
                    push_preflight_running: true,
                    ..old(self)@
                })
                &&& check matches Some(c) && c.repo_index == repo_index && c.path@ == old(self)@.repos[repo_index as int].path@
                    && c.branch@ == old(self)@.repos[repo_index as int].current_branch@
            },
            repo_index >= old(self)@.repos.len() ==> final(self)@ == old(self)@ && check is None,
    {
        if repo_index >= self.repos.len() {
            return None;
        }
        let path = self.repos[repo_index].path.clone();
        let branch = self.repos[repo_index].current_branch.clone();
        let ghost v0 = self@;
        self.busy = true;
        self.set_status(text_of("Checking upstream\u{2026}"));
        self.push_preflight_running = true;
        assert(self@ =~= AppView {
            busy: true,
            status_message: Some(checking_upstream()),
            push_preflight_running: true,
            ..v0
        });
        Some(PushCheck { repo_index, path, branch })
    }

    /// The branch has no upstream: the user is asked whether to create it.
    pub fn upstream_missing(&mut self, branch: &str)
        ensures
            final(self)@ == (AppView {
                busy: false,
                status_message: Some("No upstream branch for '"@ + branch@ + "'"@),
                ..old(self)@
            }),
    {
        let ghost v0 = self@;
        self.busy = false;
        let mut s = text_of("No upstream branch for '");
        push_str(&mut s, branch);
        push_str(&mut s, "'");
        self.set_status(s);
        assert(self@ =~= AppView {
            busy: false,
            status_message: Some("No upstream branch for '"@ + branch@ + "'"@),
            ..v0
        });
    }

    /// Starts the push itself, creating the upstream branch when asked.
    pub fn begin_push_upload(&mut self, repo_index: usize, path: String, set_upstream: bool) -> (plan: PushPlan)
        ensures
            final(self)@ == (AppView {
                busy: true,
                status_message: Some("Pushing\u{2026}"@),
                operation_running: true,
                ..old(self)@
            }),
            plan.repo_index == repo_index,
            plan.path@ == path@,
            plan.set_upstream == set_upstream,
            plan.branch@ == if repo_index < old(self)@.repos.len() {
                old(self)@.repos[repo_index as int].current_branch@
            } else {
                Seq::empty()
            },
    {
        let branch = if repo_index < self.repos.len() {
            self.repos[repo_index].current_branch.clone()
        } else {
            String::new()
        };
        let ghost v0 = self@;
        self.busy = true;
        self.set_status(text_of("Pushing\u{2026}"));
        self.operation_running = true;
        assert(self@ =~= AppView {
            busy: true,
            status_message: Some("Pushing\u{2026}"@),
            operation_running: true,
            ..v0
        });
        PushPlan { repo_index, path, branch, set_upstream }
    }

    /// Reads the detail of a repository again after it changed, when it is
    /// the selected repository and its row still shows `path`.
    pub fn refresh_pushed_repo_details(&mut self, repo_index: usize, path: &str) -> (reload: Option<DetailReload>)
        ensures
            ({
                let (w, started) = pushed_reload(old(self)@, repo_index as int, path@);
                &&& final(self)@ == w
                &&& started == reload is Some
                &&& reload matches Some(r) ==> r.repo_index == repo_index && r.path@ == path@
                    && text_views(r.branches@).to_set() == old(self)@.log_visible_branches
                    && sorted_texts(text_views(r.branches@))
            }),
    {
        let selected = match &self.selected {
            Some(RepoSelection::Repo(i)) => *i == repo_index,
            _ => false,
        };
        if !selected || repo_index >= self.repos.len() || !same_text(self.repos[repo_index].path.as_str(), path) {
            return None;
        }
        let ghost v0 = self@;
        self.loading_detail = true;
        let branches = self.log_visible_branches.to_vec();
        self.detail_running = true;
        assert(self@ =~= AppView { loading_detail: true, detail_running: true, ..v0 });
        Some(DetailReload { repo_index, path: text_of(path), branches })
    }

    /// Takes in a reloaded repository detail, unless the row no longer
    /// shows that repository.
    pub fn apply_reloaded_detail(
        &mut self,
        reload: DetailReload,
        detail: Option<RepoDetail>,
        log_entries: Vec<LogEntry>,
        layout: Option<CommitCanvasLayout>,
    )
        ensures
            (reload.repo_index < old(self)@.repos.len() && old(self)@.repos[reload.repo_index as int].path@
                == reload.path@) ==> final(self)@ == detail_applied(
                old(self)@,
                SelectionView::Repo(reload.repo_index),
                detail,
                None,
                crate::models::entry_views(log_entries@),
                layout,
            ),
            !(reload.repo_index < old(self)@.repos.len() && old(self)@.repos[reload.repo_index as int].path@
                == reload.path@) ==> final(self)@ == old(self)@,
    {
        if reload.repo_index >= self.repos.len() || !same_text(
            self.repos[reload.repo_index].path.as_str(),
            reload.path.as_str(),
        ) {
            return;
        }
        self.apply_detail(RepoSelection::Repo(reload.repo_index), detail, None, log_entries, layout);
    }

    /// Takes back the outcome of a push.
    #[verifier::rlimit(80)]
    pub fn finish_push(&mut self, plan: PushPlan, result: Result<String, String>, refreshed: Option<RepoInfo>) -> (reload:
        Option<DetailReload>)
        ensures
            ({
                let (w, started) = push_finished(old(self)@, plan, result_view(result), refreshed);
                &&& final(self)@ == w
                &&& started == reload is Some
                &&& reload matches Some(r) ==> r.repo_index == plan.repo_index && r.path@ == plan.path@
                    && text_views(r.branches@).to_set() == old(self)@.log_visible_branches
                    && sorted_texts(text_views(r.branches@))
            }),
    {
        let ghost v0 = self@;
        let status = outcome_text(&result, "Push done", "Push: ", "Push failed: ");
        self.set_status(status);
        let ghost v1 = self@;
        assert(v1 == AppView { status_message: Some(push_outcome(result_view(result))), ..v0 });
        self.apply_repo_refresh(plan.repo_index, plan.path.as_str(), refreshed);
        let ghost v2 = self@;
        assert(v2 == refresh_applied(v1, plan.repo_index as int, plan.path@, refreshed));
        let reload = self.refresh_pushed_repo_details(plan.repo_index, plan.path.as_str());
        let ghost v3 = self@;
        assert(v3 == pushed_reload(v2, plan.repo_index as int, plan.path@).0);
        self.end_busy();
        reload
    }

    fn end_busy(&mut self)
        ensures
            final(self)@ == (AppView { busy: false, ..old(self)@ }),
    {
        self.busy = false;
        assert(self@ =~= AppView { busy: false, ..old(self)@ });
    }

    /// Starts initializing the selected submodule.
    pub fn begin_init_submodule(&mut self) -> (plan: Option<SubmoduleInitPlan>)
        ensures
            (!old(self)@.busy && selected_submodule_spec(old(self)@) is Some) ==> {
                let (r, k, rel) = selected_submodule_spec(old(self)@).unwrap();
                &&& final(self)@ == (AppView {
                    busy: true,
                    status_message: Some("Initializing submodule\u{2026}"@),
                    operation_running: true,
                    ..old(self)@
                })
                &&& plan matches Some(p) && p.repo_index == r && p.submodule_index == k
                    && p.selected_relative_path@ == rel && p.repo_path@ == old(self)@.repos[r as int].path@
                    && p.relative_path@ == rel
            },
            !(!old(self)@.busy && selected_submodule_spec(old(self)@) is Some) ==> final(self)@ == old(self)@
                && plan is None,
    {
        if self.busy {
            return None;
        }
        let (repo_index, submodule_index, selected_relative_path) = match self.selected_submodule() {
            Some(s) => s,
            None => return None,
        };
        let repo_path = self.repos[repo_index].path.clone();
        let relative_path = self.repos[repo_index].submodules[submodule_index].relative_path.clone();
        let ghost v0 = self@;
        self.busy = true;
        self.set_status(text_of("Initializing submodule\u{2026}"));
        self.operation_running = true;
        assert(self@ =~= AppView {
            busy: true,
            status_message: Some("Initializing submodule\u{2026}"@),
            operation_running: true,
            ..v0
        });
        Some(SubmoduleInitPlan { repo_index, submodule_index, selected_relative_path, repo_path, relative_path })
    }

    /// Takes back the outcome of a submodule initialization; when it
    /// succeeded and the submodule is still selected, its detail is read
    /// again.
    #[verifier::rlimit(80)]
    pub fn finish_init_submodule(
        &mut self,
        plan: SubmoduleInitPlan,
        result: Result<String, String>,
        refreshed: Option<RepoInfo>,
    ) -> (reload: Option<SubmoduleReload>)
        ensures
            ({
                let (w, started) = init_finished(old(self)@, plan, result_view(result), refreshed);
                &&& final(self)@ == w
                &&& started == reload is Some
                &&& reload matches Some(r) ==> submodule_reload_for(w, r)
            }),
    {
        let ghost v0 = self@;
        let ok = result.is_ok();
        self.take_init_outcome(&plan, &result, refreshed);
        let ghost v2 = self@;
        let reload = if ok {
            self.reload_initialized(plan.selected_relative_path.as_str())
        } else {
            None
        };
        let ghost v3 = self@;
        assert(v3 == if result is Ok && init_reload(v2, plan.selected_relative_path@) {
            AppView { loading_detail: true, detail_running: true, ..v2 }
        } else {
            v2
        });
        self.end_busy();
        proof {
            if reload is Some {
                lemma_submodule_reload_same(v2, self@, reload.unwrap());
            }
        }
        reload
    }

    fn take_init_outcome(&mut self, plan: &SubmoduleInitPlan, result: &Result<String, String>, refreshed: Option<RepoInfo>)
        ensures
            ({
                let v1 = AppView { status_message: Some(init_outcome(result_view(*result))), ..old(self)@ };
                final(self)@ == if result is Ok {
                    refresh_applied(v1, plan.repo_index as int, plan.repo_path@, refreshed)
                } else {
                    v1
                }
            }),
    {
        let status = outcome_text(result, "Submodule initialized", "Submodule initialized: ", "Submodule init failed: ");
        self.set_status(status);
        if result.is_ok() {
            self.apply_repo_refresh(plan.repo_index, plan.repo_path.as_str(), refreshed);
        }
    }

    fn reload_initialized(&mut self, selected_relative_path: &str) -> (reload: Option<SubmoduleReload>)
        ensures
            init_reload(old(self)@, selected_relative_path@) ==> final(self)@ == (AppView {
                loading_detail: true,
                detail_running: true,
                ..old(self)@
            }) && reload is Some,
            !init_reload(old(self)@, selected_relative_path@) ==> final(self)@ == old(self)@ && reload is None,
            reload matches Some(r) ==> submodule_reload_for(old(self)@, r),
    {
        if let Some((r, k, rel)) = self.selected_submodule() {
            if same_text(rel.as_str(), selected_relative_path) {
                let submodule = &self.repos[r].submodules[k];
                let path = submodule.path.clone();
                let submodule_detail = Some(SubmoduleDetail::of(submodule));
                let ghost v0 = self@;
                self.loading_detail = true;
                self.detail_running = true;
                assert(self@ =~= AppView { loading_detail: true, detail_running: true, ..v0 });
                return Some(SubmoduleReload {
                    selection: RepoSelection::Submodule { repo_index: r, submodule_index: k, relative_path: rel },
                    path,
                    submodule_detail,
                });
            }
        }
        None
    }

    /// Starts reading the history of the chosen branches for the current
    /// selection.
    pub fn begin_branch_history_reload(&mut self) -> (reload: Option<HistoryReload>)
        ensures
            selection_path(old(self)@) is Some ==> {
                &&& final(self)@ == (AppView {
                    status_message: Some(history_reload_status(old(self)@.log_visible_branches.len())),
                    detail_running: true,
                    ..old(self)@
                })
                &&& reload matches Some(r) && opt_selection(Some(r.selection)) == old(self)@.selected
                    && Some(r.path@) == selection_path(old(self)@)
                    && text_views(r.branches@).to_set() == old(self)@.log_visible_branches
                    && sorted_texts(text_views(r.branches@))
            },
            selection_path(old(self)@) is None ==> final(self)@ == old(self)@ && reload is None,
    {
        let (selection, path) = match self.history_target() {
            Some(t) => t,
            None => return None,
        };
        let branches = self.log_visible_branches.to_vec();
        let count = self.log_visible_branches.len();
        let ghost v0 = self@;
        let mut status = text_of("Loading ");
        push_decimal(&mut status, count as u64);
        push_str(&mut status, " branch history\u{2026}");
        self.set_status(status);
        self.detail_running = true;
        assert(self@ =~= AppView {
            status_message: Some(history_reload_status(v0.log_visible_branches.len())),
            detail_running: true,
            ..v0
        });
        Some(HistoryReload { selection, path, branches })
    }

    fn history_target(&self) -> (target: Option<(RepoSelection, String)>)
        ensures
            match target {
                Some((sel, path)) => opt_selection(Some(sel)) == self@.selected && Some(path@) == selection_path(
                    self@,
                ),
                None => selection_path(self@) is None,
            },
    {
        match &self.selected {
            Some(RepoSelection::Repo(i)) => {
                if *i < self.repos.len() {
                    Some((RepoSelection::Repo(*i), self.repos[*i].path.clone()))
                } else {
                    None
                }
            },
            Some(RepoSelection::Submodule { repo_index, submodule_index, relative_path }) => {
                if *repo_index < self.repos.len() && *submodule_index < self.repos[*repo_index].submodules.len() {
                    Some((
                        RepoSelection::Submodule {
                            repo_index: *repo_index,
                            submodule_index: *submodule_index,
                            relative_path: relative_path.clone(),
                        },
                        self.repos[*repo_index].submodules[*submodule_index].path.clone(),
                    ))
                } else {
                    None
                }
            },
            None => None,
        }
    }

    /// Takes in the history read for the chosen branches, unless the
    /// selection changed meanwhile.
    pub fn apply_branch_history(&mut self, selection: RepoSelection, layout: Option<CommitCanvasLayout>)
        ensures
            final(self)@ == history_applied(old(self)@, selection@, layout),
    {
        let current = match &self.selected {
            Some(s) => s.same(&selection),
            None => false,
        };
        if !current {
            return;
        }
        let ghost v0 = self@;
        self.log_entries = match &layout {
            Some(l) => crate::models::copy_entries(&l.list.entries),
            None => Vec::new(),
        };
        self.commit_canvas_layout = layout;
        self.canvas_interaction = false;
        self.set_status(text_of("Git Log updated"));
        proof {
            entry_views_empty();
        }
        assert(self@ =~= history_applied(v0, selection@, layout));
    }

    /// Starts a batch run over every listed repository.
    pub fn begin_batch(&mut self, action: BatchAction) -> (run: Option<BatchRun>)
        ensures
            batch_allowed(old(self)@) ==> {
                &&& final(self)@ == (AppView {
                    context_menu: None,
                    busy: true,
                    status_message: Some(batch_status(action)),
                    operation_running: true,
                    ..old(self)@
                })
                &&& run matches Some(r) && r.host.batch_action() == action && texts(r.host.path_list())
                    == repo_paths(old(self)@.repos) && opt_text(r.parent) == old(self)@.parent_dir
            },
            !batch_allowed(old(self)@) ==> final(self)@ == old(self)@ && run is None,
    {
        if self.busy || self.scanning || self.repos.len() == 0 {
            return None;
        }
        let mut paths: Vec<String> = Vec::new();
        let mut k: usize = 0;
        while k < self.repos.len()
            invariant
                k <= self.repos@.len(),
                texts(paths@) == repo_paths(self.repos@).take(k as int),
            decreases self.repos.len() - k,
        {
            let p = self.repos[k].path.clone();
            let ghost before = paths@;
            paths.push(p);
            assert(texts(paths@) =~= texts(before).push(p@));
            assert(texts(paths@) =~= repo_paths(self.repos@).take(k + 1));
            k = k + 1;
        }
        assert(repo_paths(self.repos@).take(k as int) =~= repo_paths(self.repos@));
        let host = BatchHost::new(paths, action);
        let parent = crate::models::copy_opt_string(&self.parent_dir);
        let ghost v0 = self@;
        self.close_context_menu();
        self.busy = true;
        let status = match action {
            BatchAction::Fetch => text_of("Fetching all projects and remotes\u{2026}"),
            BatchAction::SwitchMain => text_of("Switching all projects to main branch\u{2026}"),
        };
        self.set_status(status);
        self.operation_running = true;
        assert(self@ =~= AppView {
            context_menu: None,
            busy: true,
            status_message: Some(batch_status(action)),
            operation_running: true,
            ..v0
        });
        Some(BatchRun { host, parent })
    }

    fn batch_refresh_one(&mut self, path: String, refreshed: Option<RepoInfo>) -> (reload: Option<DetailReload>)
        ensures
            ({
                let (w, row) = batch_refresh_step(old(self)@, path@, refreshed);
                &&& final(self)@ == w
                &&& match row {
                    Some(i) => reload matches Some(r) && r.repo_index == i,
                    None => reload is None,
                }
            }),
    {
        match find_repo(&self.repos, path.as_str()) {
            Some(index) => {
                self.apply_repo_refresh(index, path.as_str(), refreshed);
                self.refresh_pushed_repo_details(index, path.as_str())
            },
            None => None,
        }
    }

    /// Takes back the result of a batch run: when the workspace directory
    /// is still the one it ran in, the summary is shown and each processed
    /// repository is taken in; returns the detail reloads this asks for.
    #[verifier::rlimit(30)]
    pub fn finish_batch(&mut self, parent: Option<String>, result: BatchResult, log_path: &str) -> (reloads: Vec<
        DetailReload,
    >)
        ensures
            ({
                let (w, rows) = batch_finished(old(self)@, opt_text(parent), result, log_path@);
                &&& final(self)@ == w
                &&& reloads@.len() == rows.len()
                &&& forall|i: int| 0 <= i < rows.len() ==> reloads@[i].repo_index == rows[i]
            }),
    {
        self.end_busy();
        let current = match (&self.parent_dir, &parent) {
            (Some(a), Some(b)) => same_text(a.as_str(), b.as_str()),
            (None, None) => true,
            _ => false,
        };
        let mut reloads: Vec<DetailReload> = Vec::new();
        if !current {
            return reloads;
        }
        let message = result.message(log_path);
        self.set_status(message);
        self.take_batch_refreshes(result.refreshed)
    }

    fn take_batch_refreshes(&mut self, items: Vec<(String, Option<RepoInfo>)>) -> (reloads: Vec<DetailReload>)
        ensures
            ({
                let (w, rows) = batch_refreshes(old(self)@, items@);
                &&& final(self)@ == w
                &&& reloads@.len() == rows.len()
                &&& forall|i: int| 0 <= i < rows.len() ==> reloads@[i].repo_index == rows[i]
            }),
    {
        let ghost v2 = self@;
        let ghost all = items@;
        let n: usize = items.len();
        let mut remaining = items;
        let mut reloads: Vec<DetailReload> = Vec::new();
        let mut k: usize = 0;
        assert(all.take(0) =~= Seq::<(String, Option<RepoInfo>)>::empty());
        assert(all.skip(0) =~= all);
        while remaining.len() > 0
            invariant
                k <= all.len(),
                all.len() == n,
                remaining@ == all.skip(k as int),
                ({
                    let (w, rows) = batch_refreshes(v2, all.take(k as int));
                    &&& self@ == w
                    &&& reloads@.len() == rows.len()
                    &&& forall|i: int| 0 <= i < rows.len() ==> reloads@[i].repo_index == rows[i]
                }),
            decreases remaining.len(),
        {
            let (path, refreshed) = remaining.remove(0);
            proof {
                assert(k < all.len());
                assert(all.take(k + 1).drop_last() =~= all.take(k as int));
                assert(all.take(k + 1).last() == all[k as int]);
                assert(all.skip(k as int).drop_first() =~= all.skip(k + 1));
            }
            if let Some(r) = self.batch_refresh_one(path, refreshed) {
                reloads.push(r);
            }
            k = k + 1;
        }
        assert(all.take(k as int) =~= all);
        reloads
    }

    /// Opening a directory or terminal failed.
    pub fn open_location_failed(&mut self, terminal: bool, error: &str)
        ensures
            final(self)@ == (AppView { status_message: Some(open_failure_message(terminal, error@)), ..old(self)@ }),
    {
        let mut s = text_of("Cannot open ");
        push_str(&mut s, if terminal { "terminal" } else { "directory" });
        push_str(&mut s, ": ");
        push_str(&mut s, error);
        self.set_status(s);
    }

    /// Starts initializing the submodule at `path` (relative path
    /// `relative_path`) from the canvas of the current selection.
    pub fn begin_canvas_submodule_init(&mut self, path: &str, relative_path: String) -> (plan: Option<CanvasInitPlan>)
        ensures
            canvas_init_allowed(old(self)@, path@) ==> {
                &&& final(self)@ == canvas_init_started(old(self)@, relative_path@)
                &&& plan matches Some(p) && plan_targets(
                    old(self)@,
                    p.repo_index,
                    p.root@,
                    p.target@,
                    p.selection@,
                    opt_detail_view(p.submodule_detail),
                ) && p.relative_path@ == relative_path@ && text_views(p.branches@).to_set()
                    == old(self)@.log_visible_branches && sorted_texts(text_views(p.branches@))
            },
            !canvas_init_allowed(old(self)@, path@) ==> final(self)@ == old(self)@ && plan is None,
    {
        if self.busy {
            return None;
        }
        let (repo_index, root, target, selection, submodule_detail) = match self.selected_remote_action_target() {
            Some(t) => t,
            None => return None,
        };
        if !same_text(target.as_str(), path) {
            return None;
        }
        let branches = self.log_visible_branches.to_vec();
        let ghost v0 = self@;
        self.busy = true;
        self.detail_running = false;
        let mut status = text_of("Initializing ");
        push_str(&mut status, relative_path.as_str());
        push_str(&mut status, "\u{2026}");
        self.set_status(status);
        self.operation_running = true;
        assert(self@ =~= canvas_init_started(v0, relative_path@));
        Some(CanvasInitPlan { repo_index, root, target, selection, submodule_detail, relative_path, branches })
    }

    /// Takes back the outcome of an initialization started from the canvas.
    #[verifier::rlimit(80)]
    pub fn finish_canvas_submodule_init(
        &mut self,
        plan: CanvasInitPlan,
        result: Result<String, String>,
        refreshed: Option<RepoInfo>,
        detail: Option<RepoDetail>,
        log_entries: Vec<LogEntry>,
        layout: Option<CommitCanvasLayout>,
    )
        ensures
            final(self)@ == canvas_init_finished(
                old(self)@,
                plan,
                result_view(result),
                refreshed,
                detail,
                crate::models::entry_views(log_entries@),
                layout,
            ),
    {
        self.apply_repo_refresh(plan.repo_index, plan.root.as_str(), refreshed);
        if self.target_still(&plan.target, &plan.selection) {
            self.apply_detail(plan.selection, detail, plan.submodule_detail, log_entries, layout);
        }
        let ghost v2 = self@;
        self.busy = false;
        let status = match &result {
            Ok(_) => text_of("Submodule initialized; canvas refreshed"),
            Err(e) => {
                let mut s = text_of("Submodule init failed: ");
                push_str(&mut s, e.as_str());
                s
            },
        };
        self.set_status(status);
        assert(self@ =~= AppView {
            busy: false,
            status_message: Some(
                match result_view(result) {
                    Ok(_) => "Submodule initialized; canvas refreshed"@,
                    Err(e) => "Submodule init failed: "@ + e,
                },
            ),
            ..v2
        });
    }
}

proof fn entry_views_empty()
    ensures
        crate::models::entry_views(Seq::<LogEntry>::empty()) == Seq::<LogEntryView>::empty(),
{
    assert(crate::models::entry_views(Seq::<LogEntry>::empty()) =~= Seq::<LogEntryView>::empty());
}

} // verus!

verus! {

/// Taking in a refreshed repository replaces exactly its row: the row at
/// `index` becomes the refreshed repository when it still shows `path`,
/// every other row stays, and a stale or missing refresh changes no row.
proof fn lemma_refresh_rows(v: AppView, index: int, path: Seq<char>, refreshed: Option<RepoInfo>)
    ensures
        refresh_applied(v, index, path, refreshed).repos.len() == v.repos.len(),
        forall|j: int|
            0 <= j < v.repos.len() && j != index ==> #[trigger] refresh_applied(v, index, path, refreshed).repos[j]
                == v.repos[j],
        (0 <= index < v.repos.len() && v.repos[index].path@ == path && refreshed is Some) ==> refresh_applied(
            v,
            index,
            path,
            refreshed,
        ).repos[index] == refreshed.unwrap(),
        !(0 <= index < v.repos.len() && v.repos[index].path@ == path && refreshed is Some) ==> refresh_applied(
            v,
            index,
            path,
            refreshed,
        ).repos == v.repos,
{
}

/// After a branch action (checkout, pull or push from the history), the
/// row of the acted-on repository shows the repository as read again
/// afterwards, when that row still shows the plan's root; the other rows
/// stay as they were, and so does every row when the row moved on or
/// nothing was read.
pub proof fn branch_action_refreshes_its_row(
    v: AppView,
    plan: LogActionPlan,
    result: Result<Seq<char>, Seq<char>>,
    refreshed: Option<RepoInfo>,
    detail: Option<RepoDetail>,
    layout: Option<CommitCanvasLayout>,
)
    ensures
        ({
            let w = log_action_finished(v, plan, result, refreshed, detail, layout);
            let i = plan.repo_index as int;
            &&& w.repos.len() == v.repos.len()
            &&& (i < v.repos.len() && v.repos[i].path@ == plan.root@ && refreshed is Some) ==> w.repos[i]
                == refreshed.unwrap()
            &&& forall|j: int| 0 <= j < v.repos.len() && j != i ==> #[trigger] w.repos[j] == v.repos[j]
            &&& !(i < v.repos.len() && v.repos[i].path@ == plan.root@ && refreshed is Some) ==> w.repos == v.repos
        }),
{
    let v1 = AppView {
        busy: false,
        status_message: Some(
            match result {
                Ok(_) => "Branch operation complete"@,
                Err(e) => "Branch operation failed: "@ + e,
            },
        ),
        ..v
    };
    lemma_refresh_rows(v1, plan.repo_index as int, plan.root@, refreshed);
}

/// After a fetch from or a reset to a remote, the row of the repository
/// shows it as read again afterwards (its new remote counts), when that row
/// still shows the plan's root; the other rows stay as they were, and so
/// does every row when the row moved on or nothing was read.
#[verifier::rlimit(30)]
pub proof fn remote_action_refreshes_its_row(
    v: AppView,
    plan: RemoteActionPlan,
    result: Result<Seq<char>, Seq<char>>,
    refreshed: Option<RepoInfo>,
    detail: Option<RepoDetail>,
    entries: Seq<LogEntryView>,
    layout: Option<CommitCanvasLayout>,
)
    ensures
        ({
            let w = remote_action_finished(v, plan, result, refreshed, detail, entries, layout);
            let i = plan.repo_index as int;
            &&& w.repos.len() == v.repos.len()
            &&& (i < v.repos.len() && v.repos[i].path@ == plan.root@ && refreshed is Some) ==> w.repos[i]
                == refreshed.unwrap()
            &&& forall|j: int| 0 <= j < v.repos.len() && j != i ==> #[trigger] w.repos[j] == v.repos[j]
            &&& !(i < v.repos.len() && v.repos[i].path@ == plan.root@ && refreshed is Some) ==> w.repos == v.repos
        }),
{
    let v1 = AppView {
        status_message: Some(
            match result {
                Ok(_) => if plan.reset {
                    "Reset to remote complete"@
                } else {
                    "Fetch complete; Git Log refreshed"@
                },
                Err(e) => "Remote action failed: "@ + e,
            },
        ),
        ..v
    };
    let v2 = refresh_applied(v1, plan.repo_index as int, plan.root@, refreshed);
    lemma_refresh_rows(v1, plan.repo_index as int, plan.root@, refreshed);
    lemma_detail_keeps_rows(v2, plan.selection@, detail, plan.submodule_detail, entries, layout);
    assert(remote_outcome_applied(v, plan, result, refreshed, detail, entries, layout).repos == v2.repos);
}

/// Taking in a detail leaves the rows alone.
proof fn lemma_detail_keeps_rows(
    v: AppView,
    selection: SelectionView,
    detail: Option<RepoDetail>,
    submodule_detail: Option<SubmoduleDetail>,
    entries: Seq<LogEntryView>,
    layout: Option<CommitCanvasLayout>,
)
    ensures
        detail_applied(v, selection, detail, submodule_detail, entries, layout).repos == v.repos,
{
}

/// After a push, the pushed repository's row shows it as read again
/// afterwards (its new remote counts), when that row still shows the
/// pushed path; the other rows stay as they were, and so does every row
/// when the row moved on or nothing was read.
pub proof fn push_refreshes_its_row(
    v: AppView,
    plan: PushPlan,
    result: Result<Seq<char>, Seq<char>>,
    refreshed: Option<RepoInfo>,
)
    ensures
        ({
            let w = push_finished(v, plan, result, refreshed).0;
            let i = plan.repo_index as int;
            &&& w.repos.len() == v.repos.len()
            &&& (i < v.repos.len() && v.repos[i].path@ == plan.path@ && refreshed is Some) ==> w.repos[i]
                == refreshed.unwrap()
            &&& forall|j: int| 0 <= j < v.repos.len() && j != i ==> #[trigger] w.repos[j] == v.repos[j]
            &&& !(i < v.repos.len() && v.repos[i].path@ == plan.path@ && refreshed is Some) ==> w.repos == v.repos
        }),
{
    let v1 = AppView { status_message: Some(push_outcome(result)), ..v };
    lemma_refresh_rows(v1, plan.repo_index as int, plan.path@, refreshed);
}

} // verus!
