//! Decisions about one repository that the application takes from values
//! read out of Git: its default branch, the command that switches to it,
//! which remote branch a local branch is compared with, the first remote
//! URL, file-status counts and history entries.
use vstd::prelude::*;

use chrono::TimeZone;

use crate::models::{texts, opt_text, FileStatusSummary, LogEntry};
use crate::text::{abbreviate, first_line, first_line_of, push_str, strip_prefix, strip_prefix_of,
    take_chars, same_text, text_of, decimal, digit_chars};

verus! {


/// `refs/remotes/<remote>/HEAD`: the reference naming a remote's default branch.
pub fn remote_head_ref(remote: &str) -> (name: String)
    ensures
        name@ == "refs/remotes/"@ + remote@ + "/HEAD"@,
{
    let mut name = text_of("refs/remotes/");
    push_str(&mut name, remote);
    push_str(&mut name, "/HEAD");
    name
}

/// `refs/remotes/<remote>/<branch>`: a remote-tracking reference.
pub fn remote_branch_ref(remote: &str, branch: &str) -> (name: String)
    ensures
        name@ == "refs/remotes/"@ + remote@ + "/"@ + branch@,
{
    let mut name = text_of("refs/remotes/");
    push_str(&mut name, remote);
    push_str(&mut name, "/");
    push_str(&mut name, branch);
    name
}

/// `branch.<branch>.<field>`: a per-branch configuration key.
pub fn branch_config_key(branch: &str, field: &str) -> (key: String)
    ensures
        key@ == "branch."@ + branch@ + "."@ + field@,
{
    let mut key = text_of("branch.");
    push_str(&mut key, branch);
    push_str(&mut key, ".");
    push_str(&mut key, field);
    key
}

/// `refs/heads/<branch>`: the reference a fetch refspec maps for a branch.
pub fn local_branch_ref(branch: &str) -> (name: String)
    ensures
        name@ == "refs/heads/"@ + branch@,
{
    let mut name = text_of("refs/heads/");
    push_str(&mut name, branch);
    name
}

/// The name shown for the checked-out branch: the shorthand of HEAD, or
/// "HEAD detached" when there is none.
pub fn branch_label(shorthand: Option<String>) -> (label: String)
    ensures
        label@ == match shorthand {
            Some(s) => s@,
            None => "HEAD detached"@,
        },
{
    match shorthand {
        Some(s) => s,
        None => text_of("HEAD detached"),
    }
}

/// The remote branch that a local branch is compared with on one remote:
/// the branch configured as its upstream when that upstream is on this
/// remote and names a local branch there, otherwise the same name.
pub open spec fn upstream_branch(
    branch: Seq<char>,
    configured_remote: Option<Seq<char>>,
    configured_merge: Option<Seq<char>>,
    remote: Seq<char>,
) -> Seq<char> {
    if configured_remote == Some(remote) && configured_merge is Some {
        match strip_prefix(configured_merge.unwrap(), "refs/heads/"@) {
            Some(name) => name,
            None => branch,
        }
    } else {
        branch
    }
}

pub fn upstream_branch_for(
    branch: &str,
    configured_remote: &Option<String>,
    configured_merge: &Option<String>,
    remote: &str,
) -> (name: String)
    ensures
        name@ == upstream_branch(branch@, opt_text(*configured_remote), opt_text(*configured_merge), remote@),
{
    let on_this_remote = match configured_remote {
        Some(r) => same_text(r.as_str(), remote),
        None => false,
    };
    if on_this_remote {
        if let Some(merge) = configured_merge {
            if let Some(name) = strip_prefix_of(merge.as_str(), "refs/heads/") {
                return name;
            }
        }
    }
    text_of(branch)
}

/// The default branch one remote advertises: the target of its
/// `refs/remotes/<remote>/HEAD` below `refs/remotes/<remote>/`.
pub open spec fn remote_default(remote: Seq<char>, target: Option<Seq<char>>) -> Option<Seq<char>> {
    match target {
        Some(t) => strip_prefix(t, "refs/remotes/"@ + remote + "/"@),
        None => None,
    }
}

/// The (branch, remote) defaults advertised by the first `n` remotes.
pub open spec fn advertised_defaults(heads: Seq<(Seq<char>, Option<Seq<char>>)>, n: int) -> Seq<(Seq<char>, Seq<char>)>
    decreases n,
{
    if n <= 0 || n > heads.len() {
        Seq::empty()
    } else {
        let rest = advertised_defaults(heads, n - 1);
        match remote_default(heads[n - 1].0, heads[n - 1].1) {
            Some(branch) => rest.push((branch, heads[n - 1].0)),
            None => rest,
        }
    }
}

/// The first default advertised by a remote named `origin`, as an index.
pub open spec fn origin_position(defaults: Seq<(Seq<char>, Seq<char>)>, i: int) -> int
    decreases defaults.len() - i,
{
    if i < 0 || i >= defaults.len() {
        defaults.len() as int
    } else if defaults[i].1 == "origin"@ {
        i
    } else {
        origin_position(defaults, i + 1)
    }
}

/// The main branch of a repository and the remote it comes from: origin's
/// default; else the default all advertising remotes agree on (when there is
/// at least one); else, with no such agreement, a local `main`, then a local
/// `master`.
pub open spec fn main_branch_spec(
    heads: Seq<(Seq<char>, Option<Seq<char>>)>,
    has_main: bool,
    has_master: bool,
) -> Result<(Seq<char>, Option<Seq<char>>), Seq<char>> {
    let d = advertised_defaults(heads, heads.len() as int);
    let o = origin_position(d, 0);
    if o < d.len() {
        Ok((d[o].0, Some(d[o].1)))
    } else if d.len() > 0 && forall|j: int| 0 <= j < d.len() ==> (#[trigger] d[j]).0 == d[0].0 {
        Ok((d[0].0, Some(d[0].1)))
    } else if has_main {
        Ok(("main"@, None))
    } else if has_master {
        Ok(("master"@, None))
    } else {
        Err("Cannot determine main branch (no remote HEAD or local main/master)"@)
    }
}

pub open spec fn main_branch_view(r: Result<(String, Option<String>), String>) -> Result<(Seq<char>, Option<Seq<char>>), Seq<char>> {
    match r {
        Ok((b, remote)) => Ok((b@, opt_text(remote))),
        Err(e) => Err(e@),
    }
}

pub open spec fn heads_view(heads: Seq<(String, Option<String>)>) -> Seq<(Seq<char>, Option<Seq<char>>)> {
    heads.map_values(|h: (String, Option<String>)| (h.0@, opt_text(h.1)))
}

/// Chooses the main branch from each remote's name and the symbolic target
/// of its `HEAD` reference (none when the reference is missing or not
/// symbolic), and whether local `main` and `master` branches exist.
pub fn main_branch(heads: &Vec<(String, Option<String>)>, has_main: bool, has_master: bool) -> (choice:
    Result<(String, Option<String>), String>)
    ensures
        main_branch_view(choice) == main_branch_spec(heads_view(heads@), has_main, has_master),
{
    let ghost hv = heads_view(heads@);
    let mut defaults: Vec<(String, String)> = Vec::new();
    let mut n: usize = 0;
    while n < heads.len()
        invariant
            n <= heads.len(),
            hv == heads_view(heads@),
            hv.len() == heads.len(),
            defaults@.map_values(|d: (String, String)| (d.0@, d.1@)) == advertised_defaults(hv, n as int),
        decreases heads.len() - n,
    {
        let remote = &heads[n].0;
        assert(hv[n as int] == (remote@, opt_text(heads@[n as int].1)));
        let ghost before = defaults@.map_values(|d: (String, String)| (d.0@, d.1@));
        if let Some(target) = &heads[n].1 {
            let mut prefix = text_of("refs/remotes/");
            push_str(&mut prefix, remote.as_str());
            push_str(&mut prefix, "/");
            if let Some(branch) = strip_prefix_of(target.as_str(), prefix.as_str()) {
                defaults.push((branch, remote.clone()));
            }
        }
        n = n + 1;
        assert(defaults@.map_values(|d: (String, String)| (d.0@, d.1@)) =~= advertised_defaults(hv, n as int));
    }
    let ghost d = advertised_defaults(hv, hv.len() as int);
    assert(hv.len() == heads.len());
    let mut i: usize = 0;
    assert(defaults@.len() == d.len());
    while i < defaults.len()
        invariant
            i <= defaults.len(),
            defaults@.len() == d.len(),
            defaults@.map_values(|d: (String, String)| (d.0@, d.1@)) == d,
            d == advertised_defaults(heads_view(heads@), heads@.len() as int),
            origin_position(d, 0) == origin_position(d, i as int),
        decreases defaults.len() - i,
    {
        assert(d[i as int] == (defaults@[i as int].0@, defaults@[i as int].1@));
        if same_text(defaults[i].1.as_str(), "origin") {
            proof {
                reveal_strlit("origin");
            }
            assert(origin_position(d, i as int) == i as int);
            let ghost kept = defaults@[i as int];
            let chosen = defaults.remove(i);
            assert(chosen == kept);
            return Ok((chosen.0, Some(chosen.1)));
        }
        assert(origin_position(d, i as int) == origin_position(d, i + 1));
        i = i + 1;
    }
    assert(origin_position(d, i as int) == d.len());
    if defaults.len() > 0 {
        assert(d[0] == (defaults@[0].0@, defaults@[0].1@));
        let mut agreed = true;
        let mut j: usize = 0;
        while j < defaults.len() && agreed
            invariant
                j <= defaults.len(),
                defaults@.len() == d.len(),
                d.len() > 0,
                defaults@.map_values(|d: (String, String)| (d.0@, d.1@)) == d,
                d == advertised_defaults(heads_view(heads@), heads@.len() as int),
                origin_position(d, 0) == d.len(),
                agreed ==> forall|t: int| 0 <= t < j ==> (#[trigger] d[t]).0 == d[0].0,
                !agreed ==> exists|t: int| 0 <= t < d.len() && (#[trigger] d[t]).0 != d[0].0,
            decreases defaults.len() - j + (if agreed { 1int } else { 0int }),
        {
            assert(d[j as int] == (defaults@[j as int].0@, defaults@[j as int].1@));
            if !defaults[j].0.eq(&defaults[0].0) {
                assert(d[j as int].0 != d[0].0);
                agreed = false;
            } else {
                j = j + 1;
            }
        }
        if agreed {
            let first = defaults.remove(0);
            return Ok((first.0, Some(first.1)));
        }
    }
    if has_main {
        Ok((text_of("main"), None))
    } else if has_master {
        Ok((text_of("master"), None))
    } else {
        Err(text_of("Cannot determine main branch (no remote HEAD or local main/master)"))
    }
}

/// The `git` arguments that switch to the main branch: the local branch
/// when it exists, else a new branch tracking the remote default; an error
/// when there is neither.
pub open spec fn switch_args(branch: Seq<char>, remote: Option<Seq<char>>, local_exists: bool) -> Result<Seq<Seq<char>>, Seq<char>> {
    if local_exists {
        Ok(seq!["switch"@, "--"@, branch])
    } else if remote is Some {
        Ok(seq!["switch"@, "--track"@, "-c"@, branch, "refs/remotes/"@ + remote.unwrap() + "/"@ + branch])
    } else {
        Err("Local main branch "@ + branch + " is unavailable"@)
    }
}

pub fn switch_to_main_command(branch: &str, remote: &Option<String>, local_exists: bool) -> (command: Result<Vec<String>, String>)
    ensures
        match command {
            Ok(args) => switch_args(branch@, opt_text(*remote), local_exists) == Ok::<Seq<Seq<char>>, Seq<char>>(texts(args@)),
            Err(e) => switch_args(branch@, opt_text(*remote), local_exists) == Err::<Seq<Seq<char>>, Seq<char>>(e@),
        },
{
    if local_exists {
        let args = vec![text_of("switch"), text_of("--"), text_of(branch)];
        assert(texts(args@) =~= seq!["switch"@, "--"@, branch@]);
        Ok(args)
    } else if let Some(r) = remote {
        let args = vec![
            text_of("switch"),
            text_of("--track"),
            text_of("-c"),
            text_of(branch),
            remote_branch_ref(r.as_str(), branch),
        ];
        assert(texts(args@) =~= seq!["switch"@, "--track"@, "-c"@, branch@, "refs/remotes/"@ + r@ + "/"@ + branch@]);
        Ok(args)
    } else {
        let mut message = text_of("Local main branch ");
        push_str(&mut message, branch);
        push_str(&mut message, " is unavailable");
        Err(message)
    }
}

/// The URL shown for a repository: origin's, else the first remote (in
/// listed order) that has one.
pub open spec fn first_remote_url_spec(origin: Option<Seq<char>>, urls: Seq<Option<Seq<char>>>) -> Option<Seq<char>> {
    if origin is Some {
        origin
    } else {
        first_some(urls)
    }
}

pub open spec fn first_some(urls: Seq<Option<Seq<char>>>) -> Option<Seq<char>>
    decreases urls.len(),
{
    if urls.len() == 0 {
        None
    } else if urls[0] is Some {
        urls[0]
    } else {
        first_some(urls.drop_first())
    }
}

pub fn first_remote_url(origin: Option<String>, urls: Vec<Option<String>>) -> (url: Option<String>)
    ensures
        opt_text(url) == first_remote_url_spec(opt_text(origin), urls@.map_values(|u: Option<String>| opt_text(u))),
{
    if origin.is_some() {
        return origin;
    }
    let ghost uv = urls@.map_values(|u: Option<String>| opt_text(u));
    let mut i: usize = 0;
    assert(uv.skip(0) == uv);
    while i < urls.len()
        invariant
            i <= urls.len(),
            origin is None,
            uv == urls@.map_values(|u: Option<String>| opt_text(u)),
            first_some(uv) == first_some(uv.skip(i as int)),
        decreases urls.len() - i,
    {
        assert(uv.skip(i as int)[0] == opt_text(urls@[i as int]));
        if let Some(u) = &urls[i] {
            let found = u.clone();
            assert(first_some(uv.skip(i as int)) == uv.skip(i as int)[0]);
            return Some(found);
        }
        assert(uv.skip(i as int).drop_first() == uv.skip(i + 1));
        i = i + 1;
    }
    assert(uv.skip(i as int).len() == 0);
    None
}

/// libgit2's status flags (`git_status_t`), as `git2::Status` carries them.
pub const STATUS_INDEX_NEW: u32 = 1;
pub const STATUS_INDEX_MODIFIED: u32 = 2;
pub const STATUS_INDEX_DELETED: u32 = 4;
pub const STATUS_INDEX_RENAMED: u32 = 8;
pub const STATUS_WT_NEW: u32 = 128;
pub const STATUS_WT_MODIFIED: u32 = 256;
pub const STATUS_WT_DELETED: u32 = 512;
pub const STATUS_WT_RENAMED: u32 = 2048;
pub const STATUS_IGNORED: u32 = 16384;
pub const STATUS_CONFLICTED: u32 = 32768;

/// How many status entries carry any flag of `mask`.
pub open spec fn count_flagged(statuses: Seq<u32>, mask: u32) -> nat
    decreases statuses.len(),
{
    if statuses.len() == 0 {
        0
    } else {
        count_flagged(statuses.drop_last(), mask) + if statuses.last() & mask != 0 {
            1nat
        } else {
            0nat
        }
    }
}

/// Counts new, modified, deleted, renamed and conflicted files, each entry
/// counted in every category whose index or work-tree flag it carries.
pub fn file_status_summary(statuses: &Vec<u32>) -> (summary: FileStatusSummary)
    ensures
        summary.new_files == count_flagged(statuses@, STATUS_WT_NEW | STATUS_INDEX_NEW),
        summary.modified == count_flagged(statuses@, STATUS_WT_MODIFIED | STATUS_INDEX_MODIFIED),
        summary.deleted == count_flagged(statuses@, STATUS_WT_DELETED | STATUS_INDEX_DELETED),
        summary.renamed == count_flagged(statuses@, STATUS_WT_RENAMED | STATUS_INDEX_RENAMED),
        summary.conflicted == count_flagged(statuses@, STATUS_CONFLICTED),
{
    let mut summary = FileStatusSummary { new_files: 0, modified: 0, deleted: 0, renamed: 0, conflicted: 0 };
    let mut i: usize = 0;
    assert(statuses@.take(0).len() == 0);
    while i < statuses.len()
        invariant
            i <= statuses.len(),
            summary.new_files == count_flagged(statuses@.take(i as int), STATUS_WT_NEW | STATUS_INDEX_NEW),
            summary.modified == count_flagged(statuses@.take(i as int), STATUS_WT_MODIFIED | STATUS_INDEX_MODIFIED),
            summary.deleted == count_flagged(statuses@.take(i as int), STATUS_WT_DELETED | STATUS_INDEX_DELETED),
            summary.renamed == count_flagged(statuses@.take(i as int), STATUS_WT_RENAMED | STATUS_INDEX_RENAMED),
            summary.conflicted == count_flagged(statuses@.take(i as int), STATUS_CONFLICTED),
            summary.new_files <= i && summary.modified <= i && summary.deleted <= i
                && summary.renamed <= i && summary.conflicted <= i,
        decreases statuses.len() - i,
    {
        let s = statuses[i];
        assert(statuses@.take(i + 1).drop_last() == statuses@.take(i as int));
        assert(statuses@.take(i + 1).last() == s);
        if s & (STATUS_WT_NEW | STATUS_INDEX_NEW) != 0 {
            summary.new_files = summary.new_files + 1;
        }
        if s & (STATUS_WT_MODIFIED | STATUS_INDEX_MODIFIED) != 0 {
            summary.modified = summary.modified + 1;
        }
        if s & (STATUS_WT_DELETED | STATUS_INDEX_DELETED) != 0 {
            summary.deleted = summary.deleted + 1;
        }
        if s & (STATUS_WT_RENAMED | STATUS_INDEX_RENAMED) != 0 {
            summary.renamed = summary.renamed + 1;
        }
        if s & STATUS_CONFLICTED != 0 {
            summary.conflicted = summary.conflicted + 1;
        }
        i = i + 1;
    }
    assert(statuses@.take(statuses.len() as int) == statuses@);
    summary
}

/// A working tree is dirty when some status entry is neither ignored nor
/// unchanged.
pub open spec fn dirty_spec(statuses: Seq<u32>) -> bool {
    exists|i: int| 0 <= i < statuses.len() && #[trigger] statuses[i] & STATUS_IGNORED == 0
}

pub fn is_dirty(statuses: &Vec<u32>) -> (dirty: bool)
    ensures
        dirty == dirty_spec(statuses@),
{
    let mut i: usize = 0;
    while i < statuses.len()
        invariant
            i <= statuses.len(),
            forall|t: int| 0 <= t < i ==> #[trigger] statuses@[t] & STATUS_IGNORED != 0,
        decreases statuses.len() - i,
    {
        if statuses[i] & STATUS_IGNORED == 0 {
            return true;
        }
        i = i + 1;
    }
    false
}

/// Every flag that the status summary counts in some category.
pub open spec fn change_flags() -> u32 {
    STATUS_INDEX_NEW | STATUS_INDEX_MODIFIED | STATUS_INDEX_DELETED | STATUS_INDEX_RENAMED | STATUS_WT_NEW
        | STATUS_WT_MODIFIED | STATUS_WT_DELETED | STATUS_WT_RENAMED | STATUS_CONFLICTED
}

/// An entry counted under `mask` exists when the count is positive.
proof fn lemma_counted_entry_exists(statuses: Seq<u32>, mask: u32)
    requires
        count_flagged(statuses, mask) > 0,
    ensures
        exists|i: int| 0 <= i < statuses.len() && #[trigger] statuses[i] & mask != 0,
    decreases statuses.len(),
{
    let last = statuses.len() - 1;
    if statuses.last() & mask != 0 {
        assert(statuses[last] & mask != 0);
    } else {
        lemma_counted_entry_exists(statuses.drop_last(), mask);
        let i = choose|i: int| 0 <= i < statuses.drop_last().len() && #[trigger] statuses.drop_last()[i] & mask != 0;
        assert(statuses[i] == statuses.drop_last()[i]);
    }
}

/// A positive count under a mask made of change flags shows an entry that is
/// not ignored.
proof fn lemma_counted_mask_is_dirty(statuses: Seq<u32>, mask: u32)
    requires
        mask & change_flags() == mask,
        forall|i: int| 0 <= i < statuses.len() ==> (#[trigger] statuses[i] & STATUS_IGNORED == 0
            || statuses[i] & change_flags() == 0),
        count_flagged(statuses, mask) > 0,
    ensures
        dirty_spec(statuses),
{
    lemma_counted_entry_exists(statuses, mask);
    let i = choose|i: int| 0 <= i < statuses.len() && #[trigger] statuses[i] & mask != 0;
    let x = statuses[i];
    let c = change_flags();
    assert(x & mask != 0 && mask & c == mask ==> x & c != 0) by (bit_vector);
    assert(x & STATUS_IGNORED == 0);
}

/// Whatever the status summary counts (a new, modified, deleted, renamed or
/// conflicted file) makes the working tree dirty, for status entries in which
/// the ignored flag never comes together with a change flag, as libgit2
/// reports them.
pub proof fn lemma_summary_counts_imply_dirty(statuses: Seq<u32>)
    requires
        forall|i: int| 0 <= i < statuses.len() ==> (#[trigger] statuses[i] & STATUS_IGNORED == 0
            || statuses[i] & change_flags() == 0),
    ensures
        count_flagged(statuses, STATUS_WT_NEW | STATUS_INDEX_NEW) > 0 ==> dirty_spec(statuses),
        count_flagged(statuses, STATUS_WT_MODIFIED | STATUS_INDEX_MODIFIED) > 0 ==> dirty_spec(statuses),
        count_flagged(statuses, STATUS_WT_DELETED | STATUS_INDEX_DELETED) > 0 ==> dirty_spec(statuses),
        count_flagged(statuses, STATUS_WT_RENAMED | STATUS_INDEX_RENAMED) > 0 ==> dirty_spec(statuses),
        count_flagged(statuses, STATUS_CONFLICTED) > 0 ==> dirty_spec(statuses),
{
    assert(change_flags() == 0x8b8fu32) by (bit_vector);
    assert((128u32 | 1u32) & 0x8b8fu32 == (128u32 | 1u32)) by (bit_vector);
    assert((256u32 | 2u32) & 0x8b8fu32 == (256u32 | 2u32)) by (bit_vector);
    assert((512u32 | 4u32) & 0x8b8fu32 == (512u32 | 4u32)) by (bit_vector);
    assert((2048u32 | 8u32) & 0x8b8fu32 == (2048u32 | 8u32)) by (bit_vector);
    assert(32768u32 & 0x8b8fu32 == 32768u32) by (bit_vector);
    if count_flagged(statuses, STATUS_WT_NEW | STATUS_INDEX_NEW) > 0 {
        lemma_counted_mask_is_dirty(statuses, STATUS_WT_NEW | STATUS_INDEX_NEW);
    }
    if count_flagged(statuses, STATUS_WT_MODIFIED | STATUS_INDEX_MODIFIED) > 0 {
        lemma_counted_mask_is_dirty(statuses, STATUS_WT_MODIFIED | STATUS_INDEX_MODIFIED);
    }
    if count_flagged(statuses, STATUS_WT_DELETED | STATUS_INDEX_DELETED) > 0 {
        lemma_counted_mask_is_dirty(statuses, STATUS_WT_DELETED | STATUS_INDEX_DELETED);
    }
    if count_flagged(statuses, STATUS_WT_RENAMED | STATUS_INDEX_RENAMED) > 0 {
        lemma_counted_mask_is_dirty(statuses, STATUS_WT_RENAMED | STATUS_INDEX_RENAMED);
    }
    if count_flagged(statuses, STATUS_CONFLICTED) > 0 {
        lemma_counted_mask_is_dirty(statuses, STATUS_CONFLICTED);
    }
}

/// The proleptic Gregorian date (year, month, day) of a day counted from
/// 1970-01-01 (Howard Hinnant's `civil_from_days`).
pub open spec fn civil_from_days(days: int) -> (int, int, int) {
    let z = days + 719468;
    let era = z / 146097;
    let doe = z % 146097;
    let yoe = (doe - doe / 1460 + doe / 36524 - doe / 146096) / 365;
    let doy = doe - (365 * yoe + yoe / 4 - yoe / 100);
    let mp = (5 * doy + 2) / 153;
    let day = doy - (153 * mp + 2) / 5 + 1;
    let month = if mp < 10 { mp + 3 } else { mp - 9 };
    let year = yoe + era * 400;
    (if month <= 2 { year + 1 } else { year }, month, day)
}

/// A number below 100 as two digits.
pub open spec fn two_digits(n: int) -> Seq<char> {
    seq![digit_chars()[n / 10], digit_chars()[n % 10]]
}

/// A natural number with at least four digits, zero-padded.
pub open spec fn four_digits(n: nat) -> Seq<char> {
    let d = decimal(n);
    if d.len() < 4 {
        Seq::new((4 - d.len()) as nat, |i: int| '0') + d
    } else {
        d
    }
}

/// chrono's `%Y`: four digits for the years 0 to 9999, else a sign and at
/// least four digits.
pub open spec fn year_text(year: int) -> Seq<char> {
    if 0 <= year <= 9999 {
        four_digits(year as nat)
    } else if year > 9999 {
        "+"@ + four_digits(year as nat)
    } else {
        "-"@ + four_digits((-year) as nat)
    }
}

/// The earliest and latest years chrono's dates reach.
pub open spec fn chrono_min_year() -> int {
    -262143
}

pub open spec fn chrono_max_year() -> int {
    262142
}

/// The text that chrono prints for a commit time given in seconds since
/// the Unix epoch, in UTC, as `%Y-%m-%d %H:%M`: the date and time of that
/// instant; empty when its year is beyond chrono's dates.
pub open spec fn commit_time_text(seconds: i64) -> Seq<char> {
    let (year, month, day) = civil_from_days(seconds / 86400);
    let second_of_day = seconds % 86400;
    if chrono_min_year() <= year <= chrono_max_year() {
        year_text(year) + "-"@ + two_digits(month) + "-"@ + two_digits(day) + " "@ + two_digits(
            second_of_day / 3600,
        ) + ":"@ + two_digits((second_of_day % 3600) / 60)
    } else {
        Seq::empty()
    }
}

/// chrono's `Utc.timestamp_opt(seconds, 0)` formatted with
/// `%Y-%m-%d %H:%M`, or the empty text when the instant does not exist:
/// `DateTime::from_timestamp` takes the day by floor division and the time
/// of day from the remainder, and chrono's dates span the years from
/// `chrono_min_year` to `chrono_max_year`.
#[verifier::external_body]
fn format_commit_time(seconds: i64) -> (text: String)
    ensures
        text@ == commit_time_text(seconds),
{
    chrono::Utc.timestamp_opt(seconds, 0).single().map(|time| time.format("%Y-%m-%d %H:%M").to_string()).unwrap_or_default()
}

/// One history entry of a commit: its id, abbreviated id, parents, author
/// name ("unknown" when not UTF-8), commit time and the first line of its
/// message (empty when not UTF-8).
pub fn log_entry(
    full_hash: String,
    parent_hashes: Vec<String>,
    author: Option<&str>,
    seconds: i64,
    message: Option<&str>,
) -> (entry: LogEntry)
    ensures
        entry.full_hash@ == full_hash@,
        entry.hash@ == take_chars(full_hash@, 7),
        texts(entry.parent_hashes@) == texts(parent_hashes@),
        entry.author@ == match author {
            Some(a) => a@,
            None => "unknown"@,
        },
        entry.date@ == commit_time_text(seconds),
        entry.message@ == match message {
            Some(m) => first_line(m@),
            None => Seq::<char>::empty(),
        },
{
    let hash = abbreviate(full_hash.as_str());
    let author = match author {
        Some(a) => text_of(a),
        None => text_of("unknown"),
    };
    let message = match message {
        Some(m) => first_line_of(m),
        None => String::new(),
    };
    LogEntry {
        full_hash,
        hash,
        parent_hashes,
        author,
        date: format_commit_time(seconds),
        message,
    }
}

} // verus!
