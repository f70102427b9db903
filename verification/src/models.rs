//! The repository, status and commit-history records that the rest of the
//! library computes on. Paths are held as text.
use vstd::prelude::*;

use crate::text::{decimal, push_decimal, push_str};

verus! {

/// The texts of a list of strings.
pub open spec fn texts(v: Seq<String>) -> Seq<Seq<char>> {
    v.map_values(|s: String| s@)
}

/// A copy of a list of strings.
pub fn copy_strings(v: &Vec<String>) -> (c: Vec<String>)
    ensures
        texts(c@) == texts(v@),
{
    let mut c: Vec<String> = Vec::new();
    let mut i: usize = 0;
    while i < v.len()
        invariant
            i <= v.len(),
            c@.len() == i,
            texts(c@) == texts(v@).take(i as int),
        decreases v.len() - i,
    {
        let ghost before = c@;
        let item = v[i].clone();
        assert(item@ == v@[i as int]@);
        c.push(item);
        i = i + 1;
        assert forall|k: int| 0 <= k < i implies #[trigger] texts(c@)[k] == texts(v@)[k] by {
            if k < i - 1 {
                assert(c@[k] == before[k]);
                assert(texts(before)[k] == texts(v@).take(i - 1)[k]);
            } else {
                assert(c@[k] == item);
            }
        }
        assert(texts(c@) =~= texts(v@).take(i as int));
    }
    assert(texts(v@).take(v.len() as int) == texts(v@));
    c
}

/// A copy of an optional string.
pub fn copy_opt_string(s: &Option<String>) -> (c: Option<String>)
    ensures
        opt_text(c) == opt_text(*s),
{
    match s {
        Some(t) => Some(t.clone()),
        None => None,
    }
}

/// The text of an optional string.
pub open spec fn opt_text(s: Option<String>) -> Option<Seq<char>> {
    match s {
        Some(t) => Some(t@),
        None => None,
    }
}

/// How a branch compares with one remote: the remote's name and, when a
/// comparable fetched reference exists, the (ahead, behind) commit counts.
#[derive(Clone, Debug)]
pub struct RemoteStatus {
    pub name: String,
    pub counts: Option<(usize, usize)>,
}

/// The label of a remote status: `name ↑ahead ↓behind`, with dashes when no
/// comparison is available.
pub open spec fn remote_label(name: Seq<char>, counts: Option<(usize, usize)>) -> Seq<char> {
    match counts {
        Some((ahead, behind)) => name + " \u{2191}"@ + decimal(ahead as nat) + " \u{2193}"@ + decimal(
            behind as nat,
        ),
        None => name + " \u{2191}\u{2014} \u{2193}\u{2014}"@,
    }
}

impl RemoteStatus {
    pub fn label(&self) -> (label: String)
        ensures
            label@ == remote_label(self.name@, self.counts),
    {
        let mut label = self.name.clone();
        match self.counts {
            Some((ahead, behind)) => {
                push_str(&mut label, " \u{2191}");
                push_decimal(&mut label, ahead as u64);
                push_str(&mut label, " \u{2193}");
                push_decimal(&mut label, behind as u64);
            },
            None => {
                push_str(&mut label, " \u{2191}\u{2014} \u{2193}\u{2014}");
            },
        }
        label
    }
}

/// A repository found under the workspace directory.
#[derive(Clone, Debug)]
pub struct RepoInfo {
    pub name: String,
    pub path: String,
    pub is_dirty: bool,
    pub current_branch: String,
    pub submodules: Vec<SubmoduleInfo>,
    pub remote_statuses: Vec<RemoteStatus>,
}

/// A direct submodule of a repository.
#[derive(Clone, Debug)]
pub struct SubmoduleInfo {
    pub remote_statuses: Vec<RemoteStatus>,
    pub name: String,
    pub path: String,
    pub relative_path: String,
    pub url: Option<String>,
    pub is_initialized: bool,
    pub is_dirty: bool,
    pub current_branch: String,
}

/// What the Info tab shows of a repository.
#[derive(Clone, Debug)]
pub struct RepoDetail {
    pub path: String,
    pub current_branch: String,
    pub branches: Vec<String>,
    pub remotes: Vec<RemoteInfo>,
    /// Branch names keyed by the commit each branch head points to.
    pub head_labels: Vec<(String, Vec<String>)>,
    pub file_status: FileStatusSummary,
}

/// A configured remote.
#[derive(Clone, Debug)]
pub struct RemoteInfo {
    pub name: String,
    pub url: Option<String>,
}

/// What the detail panel shows of a submodule.
#[derive(Clone, Debug)]
pub struct SubmoduleDetail {
    pub name: String,
    pub path: String,
    pub url: Option<String>,
    pub is_initialized: bool,
}

pub struct SubmoduleDetailView {
    pub name: Seq<char>,
    pub path: Seq<char>,
    pub url: Option<Seq<char>>,
    pub is_initialized: bool,
}

impl View for SubmoduleDetail {
    type V = SubmoduleDetailView;

    open spec fn view(&self) -> SubmoduleDetailView {
        SubmoduleDetailView {
            name: self.name@,
            path: self.path@,
            url: opt_text(self.url),
            is_initialized: self.is_initialized,
        }
    }
}

impl SubmoduleDetail {
    /// What the detail panel shows of a submodule.
    pub fn of(submodule: &SubmoduleInfo) -> (detail: SubmoduleDetail)
        ensures
            detail@ == (SubmoduleDetailView {
                name: submodule.name@,
                path: submodule.path@,
                url: opt_text(submodule.url),
                is_initialized: submodule.is_initialized,
            }),
    {
        SubmoduleDetail {
            name: submodule.name.clone(),
            path: submodule.path.clone(),
            url: copy_opt_string(&submodule.url),
            is_initialized: submodule.is_initialized,
        }
    }
}

/// Per-category counts of changed files.
#[derive(Clone, Copy, Debug)]
pub struct FileStatusSummary {
    pub new_files: usize,
    pub modified: usize,
    pub deleted: usize,
    pub renamed: usize,
    pub conflicted: usize,
}

impl Default for FileStatusSummary {
    fn default() -> (summary: Self)
        ensures
            summary.new_files == 0 && summary.modified == 0 && summary.deleted == 0
                && summary.renamed == 0 && summary.conflicted == 0,
    {
        FileStatusSummary { new_files: 0, modified: 0, deleted: 0, renamed: 0, conflicted: 0 }
    }
}

/// One commit of a history listing.
#[derive(Clone, Debug)]
pub struct LogEntry {
    pub full_hash: String,
    pub hash: String,
    pub parent_hashes: Vec<String>,
    pub author: String,
    pub date: String,
    pub message: String,
}

/// The content of a log entry.
pub struct LogEntryView {
    pub full_hash: Seq<char>,
    pub hash: Seq<char>,
    pub parent_hashes: Seq<Seq<char>>,
    pub author: Seq<char>,
    pub date: Seq<char>,
    pub message: Seq<char>,
}

impl View for LogEntry {
    type V = LogEntryView;

    open spec fn view(&self) -> LogEntryView {
        LogEntryView {
            full_hash: self.full_hash@,
            hash: self.hash@,
            parent_hashes: texts(self.parent_hashes@),
            author: self.author@,
            date: self.date@,
            message: self.message@,
        }
    }
}

impl LogEntry {
    /// A copy of this entry.
    pub fn copy(&self) -> (c: LogEntry)
        ensures
            c@ == self@,
    {
        LogEntry {
            full_hash: self.full_hash.clone(),
            hash: self.hash.clone(),
            parent_hashes: copy_strings(&self.parent_hashes),
            author: self.author.clone(),
            date: self.date.clone(),
            message: self.message.clone(),
        }
    }
}

/// The views of a list of log entries.
pub open spec fn entry_views(v: Seq<LogEntry>) -> Seq<LogEntryView> {
    v.map_values(|e: LogEntry| e@)
}

/// A copy of a list of log entries.
pub fn copy_entries(v: &Vec<LogEntry>) -> (c: Vec<LogEntry>)
    ensures
        entry_views(c@) == entry_views(v@),
{
    let mut c: Vec<LogEntry> = Vec::new();
    let mut i: usize = 0;
    while i < v.len()
        invariant
            i <= v.len(),
            c@.len() == i,
            entry_views(c@) == entry_views(v@).take(i as int),
        decreases v.len() - i,
    {
        let ghost before = c@;
        let item = v[i].copy();
        c.push(item);
        i = i + 1;
        assert forall|k: int| 0 <= k < i implies #[trigger] entry_views(c@)[k] == entry_views(v@)[k] by {
            if k < i - 1 {
                assert(c@[k] == before[k]);
                assert(entry_views(before)[k] == entry_views(v@).take(i - 1)[k]);
            } else {
                assert(c@[k] == item);
            }
        }
        assert(entry_views(c@) =~= entry_views(v@).take(i as int));
    }
    assert(entry_views(v@).take(v.len() as int) == entry_views(v@));
    c
}

/// Whether a lane of the commit graph could be read.
#[derive(Clone, Copy, Debug, PartialEq, Eq, Structural)]
pub enum CommitLaneStatus {
    Available,
    Uninitialized,
    Unavailable,
}

/// One repository's history in the commit graph: the main repository or a
/// direct submodule.
#[derive(Clone, Debug)]
pub struct CommitLane {
    pub id: String,
    pub name: String,
    pub relative_path: Option<String>,
    pub status: CommitLaneStatus,
    pub entries: Vec<LogEntry>,
}

/// A main-repository commit that records a submodule commit through its
/// gitlink.
#[derive(Clone, Debug)]
pub struct SubmoduleCommitLink {
    pub main_commit: String,
    pub submodule_lane: String,
    pub submodule_commit: String,
}

/// The histories of a repository and its direct submodules.
#[derive(Clone, Debug)]
pub struct CommitGraph {
    pub repository_path: String,
    pub lanes: Vec<CommitLane>,
    pub submodule_links: Vec<SubmoduleCommitLink>,
    /// Branch names keyed by the commit each branch head points to.
    pub head_labels: Vec<(String, Vec<String>)>,
}

} // verus!

verus! {

/// The content of a commit lane.
pub struct CommitLaneView {
    pub id: Seq<char>,
    pub name: Seq<char>,
    pub relative_path: Option<Seq<char>>,
    pub status: CommitLaneStatus,
    pub entries: Seq<LogEntryView>,
}

impl View for CommitLane {
    type V = CommitLaneView;

    open spec fn view(&self) -> CommitLaneView {
        CommitLaneView {
            id: self.id@,
            name: self.name@,
            relative_path: opt_text(self.relative_path),
            status: self.status,
            entries: entry_views(self.entries@),
        }
    }
}

/// The content of a submodule link: (main commit, submodule lane, submodule commit).
pub open spec fn link_view(l: SubmoduleCommitLink) -> (Seq<char>, Seq<char>, Seq<char>) {
    (l.main_commit@, l.submodule_lane@, l.submodule_commit@)
}

/// The content of a commit-to-labels table.
pub open spec fn labels_view(v: Seq<(String, Vec<String>)>) -> Seq<(Seq<char>, Seq<Seq<char>>)> {
    v.map_values(|p: (String, Vec<String>)| (p.0@, texts(p.1@)))
}

/// The content of a commit graph.
pub struct CommitGraphView {
    pub repository_path: Seq<char>,
    pub lanes: Seq<CommitLaneView>,
    pub submodule_links: Seq<(Seq<char>, Seq<char>, Seq<char>)>,
    pub head_labels: Seq<(Seq<char>, Seq<Seq<char>>)>,
}

impl View for CommitGraph {
    type V = CommitGraphView;

    open spec fn view(&self) -> CommitGraphView {
        CommitGraphView {
            repository_path: self.repository_path@,
            lanes: self.lanes@.map_values(|l: CommitLane| l@),
            submodule_links: self.submodule_links@.map_values(|l: SubmoduleCommitLink| link_view(l)),
            head_labels: labels_view(self.head_labels@),
        }
    }
}

/// The labels listed for a commit: those of the first entry keyed by it, or
/// none.
pub open spec fn labels_for(table: Seq<(Seq<char>, Seq<Seq<char>>)>, commit: Seq<char>) -> Seq<Seq<char>>
    decreases table.len(),
{
    if table.len() == 0 {
        Seq::empty()
    } else if table[0].0 == commit {
        table[0].1
    } else {
        labels_for(table.drop_first(), commit)
    }
}

/// The labels listed for a commit.
pub fn find_labels(table: &Vec<(String, Vec<String>)>, commit: &String) -> (labels: Vec<String>)
    ensures
        texts(labels@) == labels_for(labels_view(table@), commit@),
{
    let mut i: usize = 0;
    let ghost t = labels_view(table@);
    assert(t.skip(0) == t);
    while i < table.len()
        invariant
            i <= table.len(),
            t == labels_view(table@),
            t.len() == table.len(),
            labels_for(t, commit@) == labels_for(t.skip(i as int), commit@),
        decreases table.len() - i,
    {
        assert(t.skip(i as int)[0] == t[i as int]);
        if table[i].0.eq(commit) {
            return copy_strings(&table[i].1);
        }
        assert(t.skip(i as int).drop_first() == t.skip(i + 1));
        i = i + 1;
    }
    assert(t.skip(i as int).len() == 0);
    Vec::new()
}

/// No commit is listed twice in a commit-to-labels table.
pub open spec fn distinct_commits(table: Seq<(Seq<char>, Seq<Seq<char>>)>) -> bool {
    forall|i: int, j: int| 0 <= i < j < table.len() ==> (#[trigger] table[i]).0 != (#[trigger] table[j]).0
}

/// The content of a list of (commit, branch name) pairs.
pub open spec fn pairs_view(v: Seq<(String, String)>) -> Seq<(Seq<char>, Seq<char>)> {
    v.map_values(|p: (String, String)| (p.0@, p.1@))
}

/// The names of the branch heads that point at `commit`, in the order given.
pub open spec fn names_for(heads: Seq<(Seq<char>, Seq<char>)>, commit: Seq<char>) -> Seq<Seq<char>>
    decreases heads.len(),
{
    if heads.len() == 0 {
        Seq::empty()
    } else if heads.last().0 == commit {
        names_for(heads.drop_last(), commit).push(heads.last().1)
    } else {
        names_for(heads.drop_last(), commit)
    }
}

/// In a table without repeated commits, a commit's labels are those of its
/// one entry, or none when it has no entry.
proof fn lemma_labels_for_distinct(table: Seq<(Seq<char>, Seq<Seq<char>>)>, commit: Seq<char>)
    requires
        distinct_commits(table),
    ensures
        (forall|i: int| 0 <= i < table.len() ==> (#[trigger] table[i]).0 != commit) ==> labels_for(table, commit)
            == Seq::<Seq<char>>::empty(),
        forall|k: int| 0 <= k < table.len() && (#[trigger] table[k]).0 == commit ==> labels_for(table, commit)
            == table[k].1,
    decreases table.len(),
{
    if table.len() > 0 {
        let rest = table.drop_first();
        assert(distinct_commits(rest)) by {
            assert forall|i: int, j: int| 0 <= i < j < rest.len() implies (#[trigger] rest[i]).0 != (
            #[trigger] rest[j]).0 by {
                assert(rest[i] == table[i + 1] && rest[j] == table[j + 1]);
            }
        }
        lemma_labels_for_distinct(rest, commit);
        assert forall|k: int| 0 <= k < table.len() && (#[trigger] table[k]).0 == commit implies labels_for(
            table,
            commit,
        ) == table[k].1 by {
            if k > 0 {
                assert(table[0].0 != table[k].0);
                assert(rest[k - 1] == table[k]);
            }
        }
        if forall|i: int| 0 <= i < table.len() ==> (#[trigger] table[i]).0 != commit {
            assert(table[0].0 != commit);
            assert forall|i: int| 0 <= i < rest.len() implies (#[trigger] rest[i]).0 != commit by {
                assert(rest[i] == table[i + 1]);
            }
        }
    }
}

/// Groups branch heads by the commit they point at: one entry per commit,
/// listing the names of the heads that point at it in the order given.
pub fn group_head_labels(heads: &Vec<(String, String)>) -> (table: Vec<(String, Vec<String>)>)
    ensures
        distinct_commits(labels_view(table@)),
        forall|i: int| 0 <= i < table.len() ==> (#[trigger] labels_view(table@)[i]).1.len() > 0,
        forall|c: Seq<char>| #[trigger] labels_for(labels_view(table@), c) == names_for(pairs_view(heads@), c),
{
    let ghost hv = pairs_view(heads@);
    let mut table: Vec<(String, Vec<String>)> = Vec::new();
    let mut n: usize = 0;
    while n < heads.len()
        invariant
            n <= heads.len(),
            hv == pairs_view(heads@),
            hv.len() == heads.len(),
            distinct_commits(labels_view(table@)),
            forall|i: int| 0 <= i < table.len() ==> (#[trigger] labels_view(table@)[i]).1.len() > 0,
            forall|c: Seq<char>| #[trigger] labels_for(labels_view(table@), c) == names_for(hv.take(n as int), c),
        decreases heads.len() - n,
    {
        let ghost before = labels_view(table@);
        let commit = &heads[n].0;
        let name = &heads[n].1;
        assert(hv[n as int] == (commit@, name@));
        assert(hv.take(n + 1).drop_last() == hv.take(n as int));
        assert(hv.take(n + 1).last() == hv[n as int]);
        let mut k: usize = 0;
        while k < table.len() && !table[k].0.eq(commit)
            invariant
                k <= table.len(),
                before == labels_view(table@),
                forall|i: int| 0 <= i < k ==> (#[trigger] before[i]).0 != commit@,
            decreases table.len() - k,
        {
            k = k + 1;
        }
        if k < table.len() {
            assert(before[k as int].0 == commit@);
            let mut entry = table.remove(k);
            let ghost old_names = entry.1@;
            assert(texts(old_names) == before[k as int].1);
            let copied = name.clone();
            assert(copied@ == name@);
            entry.1.push(copied);
            assert(texts(entry.1@) =~= texts(old_names).push(name@));
            table.insert(k, entry);
            let ghost after = labels_view(table@);
            assert(after =~= before.update(k as int, (commit@, before[k as int].1.push(name@))));
            assert(distinct_commits(after)) by {
                assert forall|i: int, j: int| 0 <= i < j < after.len() implies (#[trigger] after[i]).0 != (
                #[trigger] after[j]).0 by {
                    assert(before[i].0 != before[j].0);
                }
            }
            assert forall|c: Seq<char>| #[trigger] labels_for(after, c) == names_for(hv.take(n + 1), c) by {
                lemma_labels_for_distinct(before, c);
                lemma_labels_for_distinct(after, c);
                assert(labels_for(before, c) == names_for(hv.take(n as int), c));
                if c == commit@ {
                    assert(after[k as int].0 == c);
                    assert(before[k as int].0 == c);
                } else {
                    if exists|j: int| 0 <= j < before.len() && (#[trigger] before[j]).0 == c {
                        let j = choose|j: int| 0 <= j < before.len() && (#[trigger] before[j]).0 == c;
                        assert(after[j] == before[j]);
                    } else {
                        assert forall|i: int| 0 <= i < after.len() implies (#[trigger] after[i]).0 != c by {
                            if i != k {
                                assert(after[i] == before[i]);
                            }
                        }
                    }
                }
            }
        } else {
            let mut names: Vec<String> = Vec::new();
            let copied = name.clone();
            names.push(copied);
            assert(texts(names@) =~= seq![name@]);
            let key = commit.clone();
            assert(key@ == commit@);
            table.push((key, names));
            let ghost after = labels_view(table@);
            assert(after =~= before.push((commit@, seq![name@])));
            assert(distinct_commits(after)) by {
                assert forall|i: int, j: int| 0 <= i < j < after.len() implies (#[trigger] after[i]).0 != (
                #[trigger] after[j]).0 by {
                    if j < before.len() {
                        assert(before[i].0 != before[j].0);
                    } else {
                        assert(before[i].0 != commit@);
                    }
                }
            }
            assert forall|c: Seq<char>| #[trigger] labels_for(after, c) == names_for(hv.take(n + 1), c) by {
                lemma_labels_for_distinct(before, c);
                lemma_labels_for_distinct(after, c);
                assert(labels_for(before, c) == names_for(hv.take(n as int), c));
                if c == commit@ {
                    assert(after[before.len() as int].0 == c);
                    assert(labels_for(before, c) == Seq::<Seq<char>>::empty());
                    assert(seq![name@] =~= Seq::<Seq<char>>::empty().push(name@));
                } else {
                    if exists|j: int| 0 <= j < before.len() && (#[trigger] before[j]).0 == c {
                        let j = choose|j: int| 0 <= j < before.len() && (#[trigger] before[j]).0 == c;
                        assert(after[j] == before[j]);
                    } else {
                        assert forall|i: int| 0 <= i < after.len() implies (#[trigger] after[i]).0 != c by {
                            if i < before.len() {
                                assert(after[i] == before[i]);
                            }
                        }
                    }
                }
            }
        }
        n = n + 1;
    }
    assert(hv.take(heads.len() as int) == hv);
    table
}

} // verus!
