//! The `git` command lines the application runs, and how their output
//! becomes a result.
use vstd::prelude::*;

use crate::models::texts;
use crate::text::{push_char, push_str, text_of};

verus! {


/// `git checkout <branch>`.
pub fn checkout_branch(branch: &str) -> (args: Vec<String>)
    ensures
        texts(args@) == seq!["checkout"@, branch@],
{
    let args = vec![text_of("checkout"), text_of(branch)];
    assert(texts(args@) =~= seq!["checkout"@, branch@]);
    args
}

/// `git pull --rebase`.
pub fn pull_rebase() -> (args: Vec<String>)
    ensures
        texts(args@) == seq!["pull"@, "--rebase"@],
{
    let args = vec![text_of("pull"), text_of("--rebase")];
    assert(texts(args@) =~= seq!["pull"@, "--rebase"@]);
    args
}

/// `git push`.
pub fn push() -> (args: Vec<String>)
    ensures
        texts(args@) == seq!["push"@],
{
    let args = vec![text_of("push")];
    assert(texts(args@) =~= seq!["push"@]);
    args
}

/// `git push -u origin <branch>`: push and create the upstream branch.
pub fn push_set_upstream(branch: &str) -> (args: Vec<String>)
    ensures
        texts(args@) == seq!["push"@, "-u"@, "origin"@, branch@],
{
    let args = vec![text_of("push"), text_of("-u"), text_of("origin"), text_of(branch)];
    assert(texts(args@) =~= seq!["push"@, "-u"@, "origin"@, branch@]);
    args
}

/// `git fetch --prune -- <remote>`: fetch one remote, dropping the remote
/// branches it no longer has.
pub fn fetch_command(remote: &str) -> (args: Vec<String>)
    ensures
        texts(args@) == seq!["fetch"@, "--prune"@, "--"@, remote@],
{
    let args = vec![text_of("fetch"), text_of("--prune"), text_of("--"), text_of(remote)];
    assert(texts(args@) =~= seq!["fetch"@, "--prune"@, "--"@, remote@]);
    args
}

/// `git reset --hard refs/remotes/<remote>/<branch>`.
pub open spec fn hard_reset_args(remote: Seq<char>, branch: Seq<char>) -> Seq<Seq<char>> {
    seq!["reset"@, "--hard"@, "refs/remotes/"@ + remote + "/"@ + branch]
}

/// The `git` runs that reset a repository to a remote's branch, in order: a
/// fetch of the remote, then a hard reset to its branch. A working tree with
/// uncommitted changes is refused before anything runs, so that no change
/// is lost.
pub fn reset_commands(dirty: bool, remote: &str, branch: &str) -> (runs: Result<Vec<Vec<String>>, String>)
    ensures
        dirty ==> (runs matches Err(e) && e@ == "Cannot reset: the working tree has uncommitted changes"@),
        !dirty ==> (runs matches Ok(r) && r@.len() == 2 && texts(r@[0]@) == seq!["fetch"@, "--prune"@, "--"@, remote@]
            && texts(r@[1]@) == hard_reset_args(remote@, branch@)),
{
    if dirty {
        return Err(text_of("Cannot reset: the working tree has uncommitted changes"));
    }
    let mut target = text_of("refs/remotes/");
    push_str(&mut target, remote);
    push_str(&mut target, "/");
    push_str(&mut target, branch);
    let reset = vec![text_of("reset"), text_of("--hard"), target];
    assert(texts(reset@) =~= hard_reset_args(remote@, branch@));
    Ok(vec![fetch_command(remote), reset])
}

/// Whether a character counts as white space, as `char::is_whitespace`
/// decides: the characters with the Unicode White_Space property.
pub open spec fn white_space(c: char) -> bool {
    let n = c as u32;
    ||| 0x9 <= n <= 0xd
    ||| n == 0x20
    ||| n == 0x85
    ||| n == 0xa0
    ||| n == 0x1680
    ||| 0x2000 <= n <= 0x200a
    ||| n == 0x2028
    ||| n == 0x2029
    ||| n == 0x202f
    ||| n == 0x205f
    ||| n == 0x3000
}

fn is_white_space(c: char) -> (ws: bool)
    ensures
        ws == white_space(c),
{
    let n = c as u32;
    (0x9 <= n && n <= 0xd) || n == 0x20 || n == 0x85 || n == 0xa0 || n == 0x1680 || (0x2000 <= n && n
        <= 0x200a) || n == 0x2028 || n == 0x2029 || n == 0x202f || n == 0x205f || n == 0x3000
}

/// The text without leading and trailing white space (`str::trim`).
pub open spec fn trimmed(s: Seq<char>) -> Seq<char> {
    let start = trim_start(s, 0);
    let end = trim_end(s, s.len() as int);
    if start < end {
        s.subrange(start, end)
    } else {
        Seq::empty()
    }
}

/// The index of the first character at or after `i` that is not white
/// space, or the length.
pub open spec fn trim_start(s: Seq<char>, i: int) -> int
    decreases s.len() - i,
{
    if i < 0 || i >= s.len() {
        s.len() as int
    } else if white_space(s[i]) {
        trim_start(s, i + 1)
    } else {
        i
    }
}

/// The index just past the last character before `j` that is not white
/// space, or 0.
pub open spec fn trim_end(s: Seq<char>, j: int) -> int
    decreases j,
{
    if j <= 0 || j > s.len() {
        0
    } else if white_space(s[j - 1]) {
        trim_end(s, j - 1)
    } else {
        j
    }
}

proof fn lemma_trim_bounds(s: Seq<char>)
    ensures
        0 <= trim_start(s, 0) <= s.len(),
        0 <= trim_end(s, s.len() as int) <= s.len(),
        trim_start(s, 0) < s.len() ==> trim_start(s, 0) < trim_end(s, s.len() as int),
        trim_start(s, 0) == s.len() ==> trim_end(s, s.len() as int) == 0,
{
    lemma_trim_start(s, 0);
    lemma_trim_end(s, s.len() as int);
}

proof fn lemma_trim_start(s: Seq<char>, i: int)
    requires
        0 <= i <= s.len(),
    ensures
        i <= trim_start(s, i) <= s.len(),
        trim_start(s, i) < s.len() ==> !white_space(s[trim_start(s, i)]),
        forall|k: int| i <= k < trim_start(s, i) ==> white_space(#[trigger] s[k]),
    decreases s.len() - i,
{
    if i < s.len() && white_space(s[i]) {
        lemma_trim_start(s, i + 1);
    }
}

proof fn lemma_trim_end(s: Seq<char>, j: int)
    requires
        0 <= j <= s.len(),
    ensures
        0 <= trim_end(s, j) <= j,
        trim_end(s, j) > 0 ==> !white_space(s[trim_end(s, j) - 1]),
        forall|k: int| trim_end(s, j) <= k < j ==> white_space(#[trigger] s[k]),
    decreases j,
{
    if j > 0 && white_space(s[j - 1]) {
        lemma_trim_end(s, j - 1);
    }
}

/// The text of `v` without leading and trailing white space.
pub fn trim_chars(v: &Vec<char>) -> (t: String)
    ensures
        t@ == trimmed(v@),
{
    let mut a: usize = 0;
    while a < v.len() && is_white_space(v[a])
        invariant
            a <= v.len(),
            trim_start(v@, 0) == trim_start(v@, a as int),
        decreases v.len() - a,
    {
        a = a + 1;
    }
    let mut b: usize = v.len();
    proof {
        lemma_trim_start(v@, 0);
    }
    while b > a && is_white_space(v[b - 1])
        invariant
            a <= b <= v.len(),
            trim_start(v@, 0) == a,
            trim_end(v@, v.len() as int) == trim_end(v@, b as int),
            a < v.len() ==> (b > a && !white_space(v@[a as int])),
        decreases b,
    {
        b = b - 1;
    }
    proof {
        lemma_trim_bounds(v@);
        lemma_trim_start(v@, 0);
        lemma_trim_end(v@, b as int);
    }
    let mut t = String::new();
    let mut i: usize = a;
    let ghost lo = trim_start(v@, 0);
    let ghost hi = trim_end(v@, v.len() as int);
    assert(hi == b || (a == v.len() && hi == 0));
    let stop = if a < b { b } else { a };
    while i < stop
        invariant
            a <= i <= stop <= v.len(),
            t@ == v@.subrange(a as int, i as int),
        decreases stop - i,
    {
        push_char(&mut t, v[i]);
        i = i + 1;
        assert(v@.subrange(a as int, i as int) == v@.subrange(a as int, i - 1).push(v@[i - 1]));
    }
    assert(t@ =~= trimmed(v@));
    t
}

/// The text that `String::from_utf8_lossy` makes of bytes: their UTF-8
/// decoding, with each malformed sequence replaced.
pub uninterp spec fn lossy_text(bytes: Seq<u8>) -> Seq<char>;

/// `String::from_utf8_lossy`: well-formed UTF-8 decodes exactly; what
/// replaces malformed sequences is left to the name.
#[verifier::external_body]
fn decode_lossy(bytes: &[u8]) -> (text: Vec<char>)
    ensures
        text@ == lossy_text(bytes@),
        vstd::utf8::valid_utf8(bytes@) ==> text@ == vstd::utf8::decode_utf8(bytes@),
{
    String::from_utf8_lossy(bytes).chars().collect()
}

/// The outcome of a `git` run: its trimmed standard output when it
/// succeeded, its trimmed standard error when it did not.
pub fn git_result(success: bool, stdout: &[u8], stderr: &[u8]) -> (result: Result<String, String>)
    ensures
        success ==> (result matches Ok(out) && out@ == trimmed(lossy_text(stdout@))),
        !success ==> (result matches Err(err) && err@ == trimmed(lossy_text(stderr@))),
{
    if success {
        Ok(trim_chars(&decode_lossy(stdout)))
    } else {
        Err(trim_chars(&decode_lossy(stderr)))
    }
}

/// Whether a character is a hexadecimal digit.
pub open spec fn is_hex_digit(c: char) -> bool {
    ('0' <= c <= '9') || ('a' <= c <= 'f') || ('A' <= c <= 'F')
}

/// The lowercase form of a hexadecimal digit.
pub open spec fn lower_hex(c: char) -> char {
    if 'A' <= c <= 'F' {
        ((c as u32) + 32) as char
    } else {
        c
    }
}

/// The full object id that an abbreviated hexadecimal id names: its digits
/// in lowercase, padded with zeros to forty digits; none when the text is
/// empty, longer than forty characters or not hexadecimal.
pub open spec fn object_id(s: Seq<char>) -> Option<Seq<char>> {
    if 0 < s.len() <= 40 && forall|i: int| 0 <= i < s.len() ==> is_hex_digit(#[trigger] s[i]) {
        Some(s.map_values(|c: char| lower_hex(c)) + Seq::new((40 - s.len()) as nat, |i: int| '0'))
    } else {
        None
    }
}

/// How many bytes UTF-8 takes for a character.
pub open spec fn utf8_width(c: char) -> int {
    if (c as u32) < 0x80 {
        1
    } else if (c as u32) < 0x800 {
        2
    } else if (c as u32) < 0x10000 {
        3
    } else {
        4
    }
}

/// How many bytes UTF-8 takes for a text.
pub open spec fn utf8_len(s: Seq<char>) -> int
    decreases s.len(),
{
    if s.len() == 0 {
        0
    } else {
        utf8_len(s.drop_last()) + utf8_width(s.last())
    }
}

/// The message of the error that refuses a text as an object id: libgit2
/// checks the byte length (empty, then more than forty) before the digits,
/// and git2 adds the error class.
pub open spec fn object_id_error(s: Seq<char>) -> Seq<char> {
    "unable to parse OID - "@ + if s.len() == 0 {
        "too short"@
    } else if utf8_len(s) > 40 {
        "too long"@
    } else {
        "contains invalid characters"@
    } + "; class=Invalid (3)"@
}

/// `git2::Oid::from_str` followed by `Oid::to_string`, or the error's
/// `to_string`: libgit2 accepts one to forty hexadecimal digits, fills the
/// id from them and pads with zero bits, and prints the id as forty
/// lowercase digits; it refuses anything else with the message of
/// `object_id_error` in the class `Invalid`.
#[verifier::external_body]
fn parse_object_id(hash: &str) -> (id: Result<String, String>)
    ensures
        match id {
            Ok(text) => object_id(hash@) == Some(text@),
            Err(e) => object_id(hash@) is None && e@ == object_id_error(hash@),
        },
{
    match git2::Oid::from_str(hash) {
        Ok(oid) => Ok(oid.to_string()),
        Err(error) => Err(error.to_string()),
    }
}

/// The `git show` arguments that print one commit in full: message,
/// identities, dates, parents and file statistics.
pub open spec fn show_commit_args(id: Seq<char>) -> Seq<Seq<char>> {
    seq![
        "--no-pager"@,
        "show"@,
        "--no-ext-diff"@,
        "--no-textconv"@,
        "--no-color"@,
        "--format=Commit: %H%nParents: %P%nAuthor: %an <%ae>%nAuthor date: %aI%nCommitter: %cn <%ce>%nCommit date: %cI%n%n%B"@,
        "--date=iso-strict"@,
        "--stat"@,
        "--numstat"@,
        "--stat-width=100"@,
        "--stat-name-width=80"@,
        "--summary"@,
        "--root"@,
        "--diff-merges=first-parent"@,
        id,
        "--"@,
    ]
}

/// The `git` invocation that shows a commit, once its hash names a valid
/// object id; the hash is never passed on unchecked.
pub fn commit_details_command(hash: &str) -> (command: Result<Vec<String>, String>)
    ensures
        match command {
            Ok(args) => (object_id(hash@) matches Some(id) && texts(args@) == show_commit_args(id)),
            Err(e) => object_id(hash@) is None && e@ == object_id_error(hash@),
        },
{
    let id = match parse_object_id(hash) {
        Ok(id) => id,
        Err(error) => return Err(error),
    };
    let args = vec![
        text_of("--no-pager"),
        text_of("show"),
        text_of("--no-ext-diff"),
        text_of("--no-textconv"),
        text_of("--no-color"),
        text_of("--format=Commit: %H%nParents: %P%nAuthor: %an <%ae>%nAuthor date: %aI%nCommitter: %cn <%ce>%nCommit date: %cI%n%n%B"),
        text_of("--date=iso-strict"),
        text_of("--stat"),
        text_of("--numstat"),
        text_of("--stat-width=100"),
        text_of("--stat-name-width=80"),
        text_of("--summary"),
        text_of("--root"),
        text_of("--diff-merges=first-parent"),
        id,
        text_of("--"),
    ];
    assert(texts(args@) =~= show_commit_args(object_id(hash@).unwrap()));
    Ok(args)
}

} // verus!
