//! Column assignment for commit histories: each active ancestry path keeps a
//! column, a commit's first parent continues in the commit's column, other
//! parents open new paths in the leftmost free column, and paths join when
//! they reach a shared ancestor.
use vstd::prelude::*;

use crate::models::{entry_views, opt_text, texts, LogEntry, LogEntryView};

verus! {

/// Column reservations: slot `k` holds the commit that the path drawn in
/// column `k` expects to reach next, or nothing when the column is free.
pub type Slots = Seq<Option<Seq<char>>>;

/// The first slot at or after `i` that holds `h`, or the number of slots.
pub open spec fn find_slot(slots: Slots, h: Seq<char>, i: int) -> int
    decreases slots.len() - i,
{
    if i < 0 || i >= slots.len() {
        slots.len() as int
    } else if slots[i] == Some(h) {
        i
    } else {
        find_slot(slots, h, i + 1)
    }
}

/// The first free slot at or after `i`, or the number of slots.
pub open spec fn find_free(slots: Slots, i: int) -> int
    decreases slots.len() - i,
{
    if i < 0 || i >= slots.len() {
        slots.len() as int
    } else if slots[i] is None {
        i
    } else {
        find_free(slots, i + 1)
    }
}

/// The slots with one more free column when `k` is just past the end.
pub open spec fn widen(slots: Slots, k: int) -> Slots {
    if k == slots.len() {
        slots.push(None)
    } else {
        slots
    }
}

/// The column of a commit: the one reserved for it, else the leftmost free one
/// (a new column when none is free).
pub open spec fn column_for(slots: Slots, h: Seq<char>) -> int {
    let reserved = find_slot(slots, h, 0);
    if reserved < slots.len() {
        reserved
    } else {
        find_free(slots, 0)
    }
}

/// Reserves the `k`-th parent `p` of a commit drawn in column `c`.
/// A parent already reserved stays where it is, except that a first parent
/// reclaims it from a column to the right of `c`. A new first parent takes
/// `c`; any other new parent takes the leftmost free column.
pub open spec fn reserve_parent(slots: Slots, c: int, k: int, p: Seq<char>) -> Slots {
    let existing = find_slot(slots, p, 0);
    if existing < slots.len() {
        if k == 0 && c < existing {
            slots.update(existing, None).update(c, Some(p))
        } else {
            slots
        }
    } else {
        let slot = if k == 0 {
            c
        } else {
            find_free(slots, 0)
        };
        widen(slots, slot).update(slot, Some(p))
    }
}

/// Reserves the parents `parents[k..]` in order.
pub open spec fn reserve_parents(slots: Slots, c: int, parents: Seq<Seq<char>>, k: int) -> Slots
    decreases parents.len() - k,
{
    if k < 0 || k >= parents.len() {
        slots
    } else {
        reserve_parents(reserve_parent(slots, c, k, parents[k]), c, parents, k + 1)
    }
}

/// The reservations after placing one commit.
pub open spec fn after_entry(slots: Slots, e: LogEntryView) -> Slots {
    let c = column_for(slots, e.full_hash);
    reserve_parents(widen(slots, c).update(c, None), c, e.parent_hashes, 0)
}

/// The columns of the first `n` entries and the reservations after them.
pub open spec fn columns_upto(entries: Seq<LogEntryView>, n: nat) -> (Seq<int>, Slots)
    decreases n,
{
    if n == 0 || n > entries.len() {
        (Seq::empty(), Seq::empty())
    } else {
        let (cols, slots) = columns_upto(entries, (n - 1) as nat);
        (cols.push(column_for(slots, entries[n - 1].full_hash)), after_entry(slots, entries[n - 1]))
    }
}

/// The column of every entry of a history listed newest first.
pub open spec fn branch_columns_spec(entries: Seq<LogEntryView>) -> Seq<int> {
    columns_upto(entries, entries.len()).0
}

/// The reservations that an exec table holds.
pub open spec fn slots_of(active: Seq<Option<String>>) -> Slots {
    active.map_values(|o: Option<String>| opt_text(o))
}

fn find_slot_exec(active: &Vec<Option<String>>, h: &String) -> (k: usize)
    ensures
        k == find_slot(slots_of(active@), h@, 0),
{
    let mut i: usize = 0;
    while i < active.len()
        invariant
            i <= active.len(),
            find_slot(slots_of(active@), h@, 0) == find_slot(slots_of(active@), h@, i as int),
        decreases active.len() - i,
    {
        let hit = match &active[i] {
            Some(s) => {
                let same = s.eq(h);
                assert(same == (s@ == h@));
                same
            },
            None => false,
        };
        assert(hit == (opt_text(active@[i as int]) == Some(h@)));
        assert(slots_of(active@)[i as int] == opt_text(active@[i as int]));
        if hit {
            return i;
        }
        i = i + 1;
    }
    i
}

fn find_free_exec(active: &Vec<Option<String>>) -> (k: usize)
    ensures
        k == find_free(slots_of(active@), 0),
{
    let mut i: usize = 0;
    while i < active.len()
        invariant
            i <= active.len(),
            find_free(slots_of(active@), 0) == find_free(slots_of(active@), i as int),
        decreases active.len() - i,
    {
        assert(slots_of(active@)[i as int] == opt_text(active@[i as int]));
        if active[i].is_none() {
            return i;
        }
        i = i + 1;
    }
    i
}

fn widen_exec(active: &mut Vec<Option<String>>, k: usize)
    requires
        k <= old(active)@.len(),
    ensures
        slots_of(final(active)@) == widen(slots_of(old(active)@), k as int),
        final(active)@.len() == widen(slots_of(old(active)@), k as int).len(),
{
    if k == active.len() {
        active.push(None);
        assert(slots_of(active@) =~= slots_of(old(active)@).push(None));
    }
}

fn set_slot(active: &mut Vec<Option<String>>, k: usize, value: Option<String>)
    requires
        k < old(active)@.len(),
    ensures
        slots_of(final(active)@) == slots_of(old(active)@).update(k as int, opt_text(value)),
        final(active)@.len() == old(active)@.len(),
{
    let ghost v = opt_text(value);
    active.set(k, value);
    assert(slots_of(active@) =~= slots_of(old(active)@).update(k as int, v));
}

proof fn lemma_find_bounds(slots: Slots, h: Seq<char>, i: int)
    requires
        0 <= i <= slots.len(),
    ensures
        i <= find_slot(slots, h, i) <= slots.len(),
        i <= find_free(slots, i) <= slots.len(),
        find_free(slots, i) < slots.len() ==> slots[find_free(slots, i)] is None,
    decreases slots.len() - i,
{
    if i < slots.len() {
        lemma_find_bounds(slots, h, i + 1);
    }
}

/// Reserve the parents of an entry placed in `column`.
fn reserve_parents_exec(active: &mut Vec<Option<String>>, column: usize, parents: &Vec<String>)
    requires
        column < old(active)@.len(),
    ensures
        slots_of(final(active)@) == reserve_parents(
            slots_of(old(active)@),
            column as int,
            texts(parents@),
            0,
        ),
        column < final(active)@.len(),
{
    let mut index: usize = 0;
    while index < parents.len()
        invariant
            index <= parents.len(),
            column < active@.len(),
            reserve_parents(slots_of(old(active)@), column as int, texts(parents@), 0)
                == reserve_parents(slots_of(active@), column as int, texts(parents@), index as int),
        decreases parents.len() - index,
    {
        let parent = &parents[index];
        let ghost before = slots_of(active@);
        let ghost p = parent@;
        assert(texts(parents@)[index as int] == p);
        proof {
            lemma_find_bounds(before, p, 0);
        }
        let existing = find_slot_exec(active, parent);
        if existing < active.len() {
            if index == 0 && column < existing {
                set_slot(active, existing, None);
                set_slot(active, column, Some(parent.clone()));
            }
        } else {
            let slot = if index == 0 {
                column
            } else {
                find_free_exec(active)
            };
            widen_exec(active, slot);
            set_slot(active, slot, Some(parent.clone()));
        }
        assert(slots_of(active@) == reserve_parent(before, column as int, index as int, p));
        index = index + 1;
    }
}

/// The column of each entry of a history listed newest first.
pub fn branch_columns(entries: &Vec<LogEntry>) -> (columns: Vec<usize>)
    ensures
        columns@.len() == entries@.len(),
        forall|i: int|
            0 <= i < columns@.len() ==> columns@[i] as int == branch_columns_spec(
                entry_views(entries@),
            )[i],
{
    let ghost ev = entry_views(entries@);
    let mut active: Vec<Option<String>> = Vec::new();
    let mut result: Vec<usize> = Vec::new();
    let mut n: usize = 0;
    assert(slots_of(active@) =~= Seq::<Option<Seq<char>>>::empty());
    while n < entries.len()
        invariant
            n <= entries.len(),
            ev == entry_views(entries@),
            result@.len() == n,
            columns_upto(ev, n as nat).0.len() == n,
            forall|i: int| 0 <= i < n ==> result@[i] as int == columns_upto(ev, n as nat).0[i],
            slots_of(active@) == columns_upto(ev, n as nat).1,
        decreases entries.len() - n,
    {
        let entry = &entries[n];
        let ghost slots = slots_of(active@);
        let ghost cols = columns_upto(ev, n as nat).0;
        assert(ev[n as int] == entry@);
        proof {
            lemma_find_bounds(slots, entry.full_hash@, 0);
        }
        let reserved = find_slot_exec(&active, &entry.full_hash);
        let column = if reserved < active.len() {
            reserved
        } else {
            find_free_exec(&active)
        };
        assert(column as int == column_for(slots, entry.full_hash@));
        result.push(column);
        widen_exec(&mut active, column);
        set_slot(&mut active, column, None);
        reserve_parents_exec(&mut active, column, &entry.parent_hashes);
        n = n + 1;
        assert(columns_upto(ev, n as nat).0 == cols.push(column as int));
    }
    assert(entries@.len() == ev.len());
    result
}


proof fn lemma_reserve_parent_len(slots: Slots, c: int, k: int, p: Seq<char>)
    requires
        0 <= c < slots.len(),
    ensures
        slots.len() <= reserve_parent(slots, c, k, p).len() <= slots.len() + 1,
{
    lemma_find_bounds(slots, p, 0);
}

proof fn lemma_reserve_parents_len(slots: Slots, c: int, parents: Seq<Seq<char>>, k: int)
    requires
        0 <= c < slots.len(),
        0 <= k,
    ensures
        reserve_parents(slots, c, parents, k).len() <= slots.len() + (if k < parents.len() {
            parents.len() - k
        } else {
            0
        }),
        reserve_parents(slots, c, parents, k).len() >= slots.len(),
    decreases parents.len() - k,
{
    if k < parents.len() {
        lemma_reserve_parent_len(slots, c, k, parents[k]);
        lemma_reserve_parents_len(reserve_parent(slots, c, k, parents[k]), c, parents, k + 1);
    }
}

/// The number of commits plus parent links among the first `n` entries.
pub open spec fn columns_load(entries: Seq<LogEntryView>, n: int) -> int
    decreases n,
{
    if n <= 0 || n > entries.len() {
        0
    } else {
        columns_load(entries, n - 1) + 1 + entries[n - 1].parent_hashes.len()
    }
}

/// Columns never run past the number of commits and parent links seen so far.
pub proof fn lemma_columns_bounded(entries: Seq<LogEntryView>, n: nat)
    requires
        n <= entries.len(),
    ensures
        columns_upto(entries, n).0.len() == n,
        columns_upto(entries, n).1.len() <= columns_load(entries, n as int),
        forall|i: int|
            0 <= i < n ==> 0 <= #[trigger] columns_upto(entries, n).0[i] < columns_load(
                entries,
                n as int,
            ),
    decreases n,
{
    if n > 0 {
        let m = (n - 1) as nat;
        lemma_columns_bounded(entries, m);
        let (cols, slots) = columns_upto(entries, m);
        let e = entries[m as int];
        let c = column_for(slots, e.full_hash);
        lemma_find_bounds(slots, e.full_hash, 0);
        let widened = widen(slots, c).update(c, None);
        lemma_reserve_parents_len(widened, c, e.parent_hashes, 0);
        assert forall|i: int| 0 <= i < n implies 0 <= #[trigger] columns_upto(entries, n).0[i]
            < columns_load(entries, n as int) by {
            if i < m {
                assert(columns_upto(entries, n).0[i] == cols[i]);
            }
        }
    }
}

/// The column of every entry lies below the lane's load of commits and parent links.
pub proof fn lemma_branch_columns_bounded(entries: Seq<LogEntryView>)
    ensures
        branch_columns_spec(entries).len() == entries.len(),
        forall|i: int|
            0 <= i < entries.len() ==> 0 <= #[trigger] branch_columns_spec(entries)[i]
                < columns_load(entries, entries.len() as int),
{
    lemma_columns_bounded(entries, entries.len());
}

// ---------------------------------------------------------------------------
// Every column awaits at most one commit.

/// No commit is awaited by two columns.
pub open spec fn distinct_reservations(slots: Slots) -> bool {
    forall|a: int, b: int|
        0 <= a < b < slots.len() && (#[trigger] slots[a]) is Some ==> slots[a] != #[trigger] slots[b]
}

proof fn lemma_find_slot(slots: Slots, h: Seq<char>, i: int)
    requires
        0 <= i,
    ensures
        ({
            let f = find_slot(slots, h, i);
            ||| f == slots.len() && forall|t: int| i <= t < slots.len() ==> slots[t] != Some(h)
            ||| i <= f < slots.len() && slots[f] == Some(h)
        }),
    decreases slots.len() - i,
{
    if i < slots.len() && slots[i] != Some(h) {
        lemma_find_slot(slots, h, i + 1);
    }
}

proof fn lemma_find_free(slots: Slots, i: int)
    requires
        0 <= i,
    ensures
        ({
            let f = find_free(slots, i);
            ||| f == slots.len()
            ||| i <= f < slots.len() && slots[f] is None
        }),
    decreases slots.len() - i,
{
    if i < slots.len() && slots[i] is Some {
        lemma_find_free(slots, i + 1);
    }
}

/// A commit is drawn in the column that awaits it, or else in a free column
/// (possibly a new one): never in a column awaiting another commit.
pub proof fn column_awaits_the_commit_or_is_free(slots: Slots, h: Seq<char>)
    ensures
        ({
            let c = column_for(slots, h);
            &&& 0 <= c <= slots.len()
            &&& c < slots.len() ==> slots[c] == Some(h) || slots[c] is None
        }),
{
    lemma_find_slot(slots, h, 0);
    lemma_find_free(slots, 0);
}

proof fn lemma_reserve_parent_distinct(slots: Slots, c: int, k: int, p: Seq<char>)
    requires
        distinct_reservations(slots),
        0 <= c < slots.len(),
        0 <= k,
        k == 0 ==> slots[c] is None,
    ensures
        distinct_reservations(reserve_parent(slots, c, k, p)),
        reserve_parent(slots, c, k, p).len() >= slots.len(),
{
    lemma_find_slot(slots, p, 0);
    lemma_find_free(slots, 0);
    let existing = find_slot(slots, p, 0);
    let r = reserve_parent(slots, c, k, p);
    if existing < slots.len() {
        if k == 0 && c < existing {
            assert forall|a: int, b: int|
                0 <= a < b < r.len() && (#[trigger] r[a]) is Some implies r[a] != #[trigger] r[b] by {
                if a == c {
                    if b != existing {
                        assert(r[b] == slots[b]);
                        if slots[b] is Some && slots[b] == Some(p) {
                            assert(slots[existing] == slots[b]);
                        }
                    }
                } else if b == c {
                    if a != existing {
                        assert(r[a] == slots[a]);
                        if slots[a] == Some(p) {
                            assert(slots[a] == slots[existing]);
                        }
                    }
                } else {
                    assert(r[a] == if a == existing { None } else { slots[a] });
                    assert(r[b] == if b == existing { None } else { slots[b] });
                }
            }
        }
    } else {
        let slot = if k == 0 { c } else { find_free(slots, 0) };
        let w = widen(slots, slot);
        assert forall|a: int, b: int|
            0 <= a < b < r.len() && (#[trigger] r[a]) is Some implies r[a] != #[trigger] r[b] by {
            if a == slot {
                assert(r[b] == w[b]);
                if b < slots.len() {
                    assert(w[b] == slots[b]);
                }
            } else if b == slot {
                assert(r[a] == w[a]);
                if a < slots.len() {
                    assert(w[a] == slots[a]);
                }
            } else {
                assert(r[a] == w[a] && r[b] == w[b]);
                if b < slots.len() {
                    assert(w[a] == slots[a] && w[b] == slots[b]);
                }
            }
        }
    }
}

proof fn lemma_reserve_parents_distinct(slots: Slots, c: int, parents: Seq<Seq<char>>, k: int)
    requires
        distinct_reservations(slots),
        0 <= c < slots.len(),
        0 <= k,
        k == 0 ==> slots[c] is None,
    ensures
        distinct_reservations(reserve_parents(slots, c, parents, k)),
    decreases parents.len() - k,
{
    if k < parents.len() {
        lemma_reserve_parent_distinct(slots, c, k, parents[k]);
        lemma_reserve_parents_distinct(reserve_parent(slots, c, k, parents[k]), c, parents, k + 1);
    }
}

proof fn lemma_after_entry_distinct(slots: Slots, e: LogEntryView)
    requires
        distinct_reservations(slots),
    ensures
        distinct_reservations(after_entry(slots, e)),
{
    let c = column_for(slots, e.full_hash);
    column_awaits_the_commit_or_is_free(slots, e.full_hash);
    let w = widen(slots, c).update(c, None);
    assert forall|a: int, b: int| 0 <= a < b < w.len() && (#[trigger] w[a]) is Some implies w[a] != #[trigger] w[b] by {
        if a != c && b != c && b < slots.len() {
            assert(w[a] == slots[a] && w[b] == slots[b]);
        }
    }
    lemma_reserve_parents_distinct(w, c, e.parent_hashes, 0);
}

proof fn lemma_columns_prefix(entries: Seq<LogEntryView>, n: nat)
    requires
        n <= entries.len(),
    ensures
        distinct_reservations(columns_upto(entries, n).1),
        columns_upto(entries, n).0.len() == n,
        forall|i: int|
            0 <= i < n ==> #[trigger] columns_upto(entries, n).0[i] == column_for(
                columns_upto(entries, i as nat).1,
                entries[i].full_hash,
            ),
    decreases n,
{
    if n > 0 {
        let m = (n - 1) as nat;
        lemma_columns_prefix(entries, m);
        lemma_after_entry_distinct(columns_upto(entries, m).1, entries[m as int]);
        assert forall|i: int| 0 <= i < n implies #[trigger] columns_upto(entries, n).0[i] == column_for(
            columns_upto(entries, i as nat).1,
            entries[i].full_hash,
        ) by {
            if i < m {
                assert(columns_upto(entries, n).0[i] == columns_upto(entries, m).0[i]);
            }
        }
    }
}

/// Each ancestry path keeps its own column: at every point of a history,
/// no two columns await the same commit, and each commit is drawn in the
/// column awaiting it or in a free one, never in another path's column.
pub proof fn paths_never_share_a_column(entries: Seq<LogEntryView>)
    ensures
        forall|n: nat| n <= entries.len() ==> distinct_reservations(#[trigger] columns_upto(entries, n).1),
        forall|i: int|
            0 <= i < entries.len() ==> {
                let slots = columns_upto(entries, i as nat).1;
                let c = #[trigger] branch_columns_spec(entries)[i];
                c == slots.len() || slots[c] is None || slots[c] == Some(entries[i].full_hash)
            },
{
    assert forall|n: nat| n <= entries.len() implies distinct_reservations(#[trigger] columns_upto(entries, n).1) by {
        lemma_columns_prefix(entries, n);
    }
    lemma_columns_prefix(entries, entries.len());
    assert forall|i: int| 0 <= i < entries.len() implies {
        let slots = columns_upto(entries, i as nat).1;
        let c = #[trigger] branch_columns_spec(entries)[i];
        c == slots.len() || slots[c] is None || slots[c] == Some(entries[i].full_hash)
    } by {
        column_awaits_the_commit_or_is_free(columns_upto(entries, i as nat).1, entries[i].full_hash);
    }
}


/// Whether `s` is the leftmost free column of `slots`: every column left of
/// it is occupied, and it is free or just past the last column (a new one,
/// opened only when every column is occupied).
pub open spec fn leftmost_free(slots: Slots, s: int) -> bool {
    &&& 0 <= s <= slots.len()
    &&& forall|j: int| 0 <= j < s ==> (#[trigger] slots[j]) is Some
    &&& s < slots.len() ==> slots[s] is None
}

/// A merged (non-first) parent that no column awaits yet opens its path in
/// the leftmost free column: it is placed there, every other column keeps
/// its reservation, and the columns grow by one only when none was free.
pub proof fn merged_parents_take_the_leftmost_free_column(slots: Slots, c: int, k: int, p: Seq<char>)
    requires
        k > 0,
        forall|j: int| 0 <= j < slots.len() ==> slots[j] != Some(p),
    ensures
        exists|s: int|
            #[trigger] leftmost_free(slots, s) && reserve_parent(slots, c, k, p) == if s == slots.len() {
                slots.push(Some(p))
            } else {
                slots.update(s, Some(p))
            },
{
    lemma_find_slot(slots, p, 0);
    lemma_find_free_leftmost(slots, 0);
    let s = find_free(slots, 0);
    assert(leftmost_free(slots, s));
    if s == slots.len() {
        assert(widen(slots, s).update(s, Some(p)) =~= slots.push(Some(p)));
    }
}

/// A commit that no column awaits is drawn in the leftmost free column.
pub proof fn unawaited_commits_take_the_leftmost_free_column(slots: Slots, h: Seq<char>)
    requires
        forall|j: int| 0 <= j < slots.len() ==> slots[j] != Some(h),
    ensures
        leftmost_free(slots, column_for(slots, h)),
{
    lemma_find_slot(slots, h, 0);
    lemma_find_free_leftmost(slots, 0);
}

proof fn lemma_find_free_leftmost(slots: Slots, i: int)
    requires
        0 <= i <= slots.len(),
        forall|j: int| 0 <= j < i ==> (#[trigger] slots[j]) is Some,
    ensures
        leftmost_free(slots, find_free(slots, i)),
    decreases slots.len() - i,
{
    if i < slots.len() && slots[i] is Some {
        lemma_find_free_leftmost(slots, i + 1);
    }
}
} // verus!
