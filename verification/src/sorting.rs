//! Case-insensitive, stable ordering of repositories, remotes and branch
//! names: by the lowercase form of their names, ties kept in the order
//! they came in.
use vstd::prelude::*;

use crate::models::{RemoteStatus, RepoInfo};
use crate::text::{lowercase, sort_key, text_less, text_lt};

verus! {

pub proof fn lemma_text_lt_irreflexive(a: Seq<char>)
    ensures
        !text_lt(a, a),
    decreases a.len(),
{
    if a.len() > 0 {
        lemma_text_lt_irreflexive(a.drop_first());
    }
}

pub proof fn lemma_text_lt_transitive(a: Seq<char>, b: Seq<char>, c: Seq<char>)
    requires
        text_lt(a, b),
        text_lt(b, c),
    ensures
        text_lt(a, c),
    decreases a.len(),
{
    if a.len() > 0 && b.len() > 0 && c.len() > 0 {
        if a[0] == b[0] && b[0] == c[0] {
            lemma_text_lt_transitive(a.drop_first(), b.drop_first(), c.drop_first());
        }
    }
}

pub proof fn lemma_text_lt_total(a: Seq<char>, b: Seq<char>)
    requires
        a != b,
    ensures
        text_lt(a, b) || text_lt(b, a),
    decreases a.len(),
{
    if a.len() > 0 && b.len() > 0 {
        if a[0] == b[0] {
            if a.drop_first() == b.drop_first() {
                assert(a =~= seq![a[0]] + a.drop_first());
                assert(b =~= seq![b[0]] + b.drop_first());
            }
            lemma_text_lt_total(a.drop_first(), b.drop_first());
        } else {
            let (x, y) = (a[0], b[0]);
            assert(x as int != y as int);
        }
    } else if a.len() == 0 && b.len() == 0 {
        assert(a =~= b);
    }
}

pub proof fn lemma_text_lt_asymmetric(a: Seq<char>, b: Seq<char>)
    requires
        text_lt(a, b),
    ensures
        !text_lt(b, a),
{
    if text_lt(b, a) {
        lemma_text_lt_transitive(a, b, a);
        lemma_text_lt_irreflexive(a);
    }
}

/// Item `i` (with key `ki`) comes before item `j` (with key `kj`): by key,
/// and by position in the input between equal keys.
pub open spec fn comes_before(ki: Seq<char>, i: int, kj: Seq<char>, j: int) -> bool {
    text_lt(ki, kj) || (ki == kj && i < j)
}

/// `order` lists every position of `keys` once, sorted by key and, between
/// equal keys, by position.
pub open spec fn stable_order(keys: Seq<Seq<char>>, order: Seq<int>) -> bool {
    &&& order.len() == keys.len()
    &&& forall|i: int| 0 <= i < order.len() ==> 0 <= #[trigger] order[i] < keys.len()
    &&& forall|i: int, j: int|
        0 <= i < j < order.len() ==> comes_before(keys[order[i]], order[i], keys[order[j]], order[j])
}

/// `sorted` holds the items of `items` in the order `order`.
pub open spec fn arranged<T>(items: Seq<T>, order: Seq<int>, sorted: Seq<T>) -> bool {
    &&& sorted.len() == order.len()
    &&& forall|i: int| 0 <= i < sorted.len() ==> sorted[i] == items[#[trigger] order[i]]
}

pub open spec fn key_views(keys: Seq<Vec<char>>) -> Seq<Seq<char>> {
    keys.map_values(|k: Vec<char>| k@)
}

/// Sorts `items` stably by `keys` (one key per item).
pub fn sort_by_keys<T>(items: Vec<T>, keys: &Vec<Vec<char>>) -> (sorted: Vec<T>)
    requires
        items@.len() == keys@.len(),
    ensures
        exists|order: Seq<int>| stable_order(key_views(keys@), order) && arranged(items@, order, sorted@),
{
    let ghost all = items@;
    let ghost kv = key_views(keys@);
    let mut rest = items;
    let mut sorted: Vec<T> = Vec::new();
    let mut order: Vec<usize> = Vec::new();
    let mut i: usize = 0;
    assert(all.skip(0) =~= all);
    while i < keys.len()
        invariant
            i <= keys@.len(),
            all.len() == keys@.len(),
            kv == key_views(keys@),
            rest@ == all.skip(i as int),
            sorted@.len() == order@.len() == i,
            forall|t: int| 0 <= t < order@.len() ==> 0 <= #[trigger] order@[t] < i,
            forall|t: int| 0 <= t < sorted@.len() ==> sorted@[t] == all[#[trigger] order@[t] as int],
            forall|s: int, t: int|
                0 <= s < t < order@.len() ==> comes_before(
                    kv[order@[s] as int],
                    order@[s] as int,
                    kv[order@[t] as int],
                    order@[t] as int,
                ),
        decreases keys.len() - i,
    {
        let mut pos: usize = 0;
        while pos < order.len() && !text_less(&keys[i], &keys[order[pos]])
            invariant
                i < keys@.len(),
                pos <= order@.len(),
                kv == key_views(keys@),
                forall|t: int| 0 <= t < order@.len() ==> 0 <= #[trigger] order@[t] < i,
                forall|t: int| 0 <= t < pos ==> !text_lt(kv[i as int], #[trigger] kv[order@[t] as int]),
            decreases order.len() - pos,
        {
            pos = pos + 1;
        }
        let ghost old_order = order@;
        let ghost old_sorted = sorted@;
        proof {
            assert(rest@.len() > 0);
            assert(rest@[0] == all[i as int]);
            assert(all.skip(i as int).drop_first() =~= all.skip(i + 1));
            // Every entry before `pos` has a key not above the new one; every
            // entry from `pos` on has a key above it.
            assert forall|t: int| 0 <= t < pos implies comes_before(
                kv[old_order[t] as int],
                old_order[t] as int,
                kv[i as int],
                i as int,
            ) by {
                let kt = kv[old_order[t] as int];
                assert(!text_lt(kv[i as int], kt));
                if kt != kv[i as int] {
                    lemma_text_lt_total(kt, kv[i as int]);
                }
            }
            if pos < old_order.len() {
                assert(text_lt(kv[i as int], kv[old_order[pos as int] as int]));
                assert forall|t: int| pos <= t < old_order.len() implies text_lt(
                    kv[i as int],
                    #[trigger] kv[old_order[t] as int],
                ) by {
                    if t > pos {
                        assert(comes_before(
                            kv[old_order[pos as int] as int],
                            old_order[pos as int] as int,
                            kv[old_order[t] as int],
                            old_order[t] as int,
                        ));
                        if text_lt(kv[old_order[pos as int] as int], kv[old_order[t] as int]) {
                            lemma_text_lt_transitive(
                                kv[i as int],
                                kv[old_order[pos as int] as int],
                                kv[old_order[t] as int],
                            );
                        }
                    }
                }
            }
        }
        let item = rest.remove(0);
        sorted.insert(pos, item);
        order.insert(pos, i);
        proof {
            assert forall|s: int, t: int| 0 <= s < t < order@.len() implies comes_before(
                kv[order@[s] as int],
                order@[s] as int,
                kv[order@[t] as int],
                order@[t] as int,
            ) by {
                if s < pos && t < pos {
                    assert(order@[s] == old_order[s] && order@[t] == old_order[t]);
                } else if s < pos && t == pos {
                    assert(order@[s] == old_order[s]);
                } else if s < pos && t > pos {
                    assert(order@[s] == old_order[s] && order@[t] == old_order[t - 1]);
                } else if s == pos {
                    assert(order@[t] == old_order[t - 1]);
                    assert(text_lt(kv[i as int], kv[old_order[t - 1] as int]));
                } else {
                    assert(order@[s] == old_order[s - 1] && order@[t] == old_order[t - 1]);
                }
            }
            assert forall|t: int| 0 <= t < sorted@.len() implies sorted@[t] == all[#[trigger] order@[t] as int] by {
                if t < pos {
                    assert(sorted@[t] == old_sorted[t]);
                } else if t > pos {
                    assert(sorted@[t] == old_sorted[t - 1]);
                    assert(order@[t] == old_order[t - 1]);
                }
            }
            assert forall|t: int| 0 <= t < order@.len() implies 0 <= #[trigger] order@[t] < i + 1 by {
                if t < pos {
                    assert(order@[t] == old_order[t]);
                } else if t > pos {
                    assert(order@[t] == old_order[t - 1]);
                }
            }
        }
        i = i + 1;
    }
    let ghost final_order = order@.map_values(|k: usize| k as int);
    assert(stable_order(kv, final_order));
    assert(arranged(all, final_order, sorted@));
    sorted
}

/// The sort keys of repositories: their lowercase names.
pub open spec fn repo_keys(repos: Seq<RepoInfo>) -> Seq<Seq<char>> {
    repos.map_values(|r: RepoInfo| lowercase(r.name@))
}

/// Repositories in alphabetical order of their names, ignoring case; equal
/// names keep their order.
pub fn sort_repos(repos: Vec<RepoInfo>) -> (sorted: Vec<RepoInfo>)
    ensures
        exists|order: Seq<int>| stable_order(repo_keys(repos@), order) && arranged(repos@, order, sorted@),
{
    let mut keys: Vec<Vec<char>> = Vec::new();
    let mut k: usize = 0;
    while k < repos.len()
        invariant
            k <= repos@.len(),
            key_views(keys@) == repo_keys(repos@).take(k as int),
        decreases repos.len() - k,
    {
        let key = sort_key(repos[k].name.as_str());
        let ghost before = keys@;
        keys.push(key);
        assert(key_views(keys@) =~= key_views(before).push(key@));
        assert(key_views(keys@) =~= repo_keys(repos@).take(k + 1));
        k = k + 1;
    }
    assert(repo_keys(repos@).take(k as int) =~= repo_keys(repos@));
    sort_by_keys(repos, &keys)
}

pub open spec fn status_keys(statuses: Seq<RemoteStatus>) -> Seq<Seq<char>> {
    statuses.map_values(|s: RemoteStatus| lowercase(s.name@))
}

/// Remote statuses in alphabetical order of the remotes' names, ignoring
/// case; equal names keep their order.
pub fn sort_statuses(statuses: Vec<RemoteStatus>) -> (sorted: Vec<RemoteStatus>)
    ensures
        exists|order: Seq<int>| stable_order(status_keys(statuses@), order) && arranged(statuses@, order, sorted@),
{
    let mut keys: Vec<Vec<char>> = Vec::new();
    let mut k: usize = 0;
    while k < statuses.len()
        invariant
            k <= statuses@.len(),
            key_views(keys@) == status_keys(statuses@).take(k as int),
        decreases statuses.len() - k,
    {
        let key = sort_key(statuses[k].name.as_str());
        let ghost before = keys@;
        keys.push(key);
        assert(key_views(keys@) =~= key_views(before).push(key@));
        assert(key_views(keys@) =~= status_keys(statuses@).take(k + 1));
        k = k + 1;
    }
    assert(status_keys(statuses@).take(k as int) =~= status_keys(statuses@));
    sort_by_keys(statuses, &keys)
}

pub open spec fn name_keys(names: Seq<String>) -> Seq<Seq<char>> {
    names.map_values(|s: String| lowercase(s@))
}

/// Names in alphabetical order, ignoring case; names that differ only in
/// case keep their order.
pub fn sort_names(names: Vec<String>) -> (sorted: Vec<String>)
    ensures
        exists|order: Seq<int>| stable_order(name_keys(names@), order) && arranged(names@, order, sorted@),
{
    let mut keys: Vec<Vec<char>> = Vec::new();
    let mut k: usize = 0;
    while k < names.len()
        invariant
            k <= names@.len(),
            key_views(keys@) == name_keys(names@).take(k as int),
        decreases names.len() - k,
    {
        let key = sort_key(names[k].as_str());
        let ghost before = keys@;
        keys.push(key);
        assert(key_views(keys@) =~= key_views(before).push(key@));
        assert(key_views(keys@) =~= name_keys(names@).take(k + 1));
        k = k + 1;
    }
    assert(name_keys(names@).take(k as int) =~= name_keys(names@));
    sort_by_keys(names, &keys)
}

} // verus!
