//! A finite set of texts (the branch names the history shows), kept as a
//! vector without repeated elements and seen as a `Set`. `std`'s ordered
//! set has no specification of its order on `String`s, so the order that
//! `BTreeSet<String>` would walk is stated and proved here.
use vstd::prelude::*;

use crate::sorting::{lemma_text_lt_irreflexive, lemma_text_lt_total, lemma_text_lt_transitive};
use crate::text::{chars_of, same_text, text_less, text_lt};

verus! {

/// A finite set of texts, such as branch names.
pub struct TextSet {
    items: Vec<String>,
}

pub open spec fn text_views(v: Seq<String>) -> Seq<Seq<char>> {
    v.map_values(|s: String| s@)
}

/// Texts in strictly increasing order.
pub open spec fn sorted_texts(s: Seq<Seq<char>>) -> bool {
    forall|a: int, b: int| 0 <= a < b < s.len() ==> text_lt(#[trigger] s[a], #[trigger] s[b])
}

impl View for TextSet {
    type V = Set<Seq<char>>;

    closed spec fn view(&self) -> Set<Seq<char>> {
        text_views(self.items@).to_set()
    }
}

impl TextSet {
    #[verifier::type_invariant]
    spec fn distinct(self) -> bool {
        text_views(self.items@).no_duplicates()
    }

    pub fn new() -> (s: TextSet)
        ensures
            s@ == Set::<Seq<char>>::empty(),
    {
        let s = TextSet { items: Vec::new() };
        assert(text_views(s.items@).to_set() =~= Set::<Seq<char>>::empty());
        s
    }

    fn position(&self, t: &str) -> (k: Option<usize>)
        ensures
            match k {
                Some(k) => k < self.items@.len() && self.items@[k as int]@ == t@,
                None => !text_views(self.items@).contains(t@),
            },
    {
        let mut k: usize = 0;
        while k < self.items.len()
            invariant
                k <= self.items@.len(),
                forall|j: int| 0 <= j < k ==> self.items@[j]@ != t@,
            decreases self.items.len() - k,
        {
            if same_text(self.items[k].as_str(), t) {
                return Some(k);
            }
            k = k + 1;
        }
        proof {
            if text_views(self.items@).contains(t@) {
                let j = choose|j: int| 0 <= j < text_views(self.items@).len() && text_views(self.items@)[j] == t@;
                assert(self.items@[j]@ == t@);
            }
        }
        None
    }

    pub fn contains(&self, t: &str) -> (found: bool)
        ensures
            found == self@.contains(t@),
    {
        match self.position(t) {
            Some(k) => {
                assert(text_views(self.items@)[k as int] == t@);
                true
            },
            None => false,
        }
    }

    pub fn len(&self) -> (n: usize)
        ensures
            n == self@.len(),
    {
        proof {
            use_type_invariant(&*self);
            text_views(self.items@).unique_seq_to_set();
        }
        self.items.len()
    }

    pub fn is_empty(&self) -> (empty: bool)
        ensures
            empty == (self@.len() == 0),
    {
        self.len() == 0
    }

    /// Adds `t`; true when it was not there before.
    pub fn insert(&mut self, t: String) -> (added: bool)
        ensures
            added == !old(self)@.contains(t@),
            final(self)@ == old(self)@.insert(t@),
    {
        proof {
            use_type_invariant(&*self);
        }
        match self.position(t.as_str()) {
            Some(k) => {
                assert(text_views(self.items@)[k as int] == t@);
                assert(text_views(self.items@).to_set().insert(t@) =~= text_views(self.items@).to_set());
                false
            },
            None => {
                let ghost before = text_views(self.items@);
                let ghost tv = t@;
                let mut items = Vec::new();
                std::mem::swap(&mut items, &mut self.items);
                items.push(t);
                assert(text_views(items@) =~= before.push(tv));
                assert forall|a: int, b: int| 0 <= a < b < text_views(items@).len() implies text_views(
                    items@,
                )[a] != text_views(items@)[b] by {
                    if b == before.len() {
                        assert(before.contains(before[a]));
                    }
                }
                proof {
                    before.lemma_push_to_set_commute(tv);
                }
                assert(text_views(items@).to_set() =~= before.to_set().insert(tv));
                self.items = items;
                true
            },
        }
    }

    /// Removes `t`; true when it was there.
    pub fn remove(&mut self, t: &str) -> (removed: bool)
        ensures
            removed == old(self)@.contains(t@),
            final(self)@ == old(self)@.remove(t@),
    {
        proof {
            use_type_invariant(&*self);
        }
        match self.position(t) {
            None => {
                assert(text_views(self.items@).to_set().remove(t@) =~= text_views(self.items@).to_set());
                false
            },
            Some(k) => {
                let ghost before = text_views(self.items@);
                assert(before[k as int] == t@);
                let mut items = Vec::new();
                std::mem::swap(&mut items, &mut self.items);
                items.remove(k);
                let ghost after = text_views(items@);
                assert(after =~= before.remove(k as int));
                assert forall|x: Seq<char>| after.contains(x) <==> (before.contains(x) && x != t@) by {
                    if after.contains(x) {
                        let j = choose|j: int| 0 <= j < after.len() && after[j] == x;
                        if j < k {
                            assert(before[j] == x);
                        } else {
                            assert(before[j + 1] == x);
                        }
                    }
                    if before.contains(x) && x != t@ {
                        let j = choose|j: int| 0 <= j < before.len() && before[j] == x;
                        assert(j != k);
                        if j < k {
                            assert(after[j] == x);
                        } else {
                            assert(after[j - 1] == x);
                        }
                    }
                }
                assert(after.to_set() =~= before.to_set().remove(t@));
                assert forall|a: int, b: int| 0 <= a < b < after.len() implies after[a] != after[b] by {
                    let a0 = if a < k { a } else { a + 1 };
                    let b0 = if b < k { b } else { b + 1 };
                    assert(after[a] == before[a0]);
                    assert(after[b] == before[b0]);
                }
                self.items = items;
                true
            },
        }
    }

    pub fn clear(&mut self)
        ensures
            final(self)@ == Set::<Seq<char>>::empty(),
    {
        self.items = Vec::new();
        assert(text_views(self.items@).to_set() =~= Set::<Seq<char>>::empty());
    }

    /// The members in increasing order (by code point, as `BTreeSet<String>`
    /// walks them), each once.
    pub fn to_vec(&self) -> (members: Vec<String>)
        ensures
            text_views(members@).to_set() == self@,
            text_views(members@).no_duplicates(),
            sorted_texts(text_views(members@)),
    {
        proof {
            use_type_invariant(&*self);
        }
        let ghost iv = text_views(self.items@);
        let mut members: Vec<String> = Vec::new();
        let mut keys: Vec<Vec<char>> = Vec::new();
        let mut k: usize = 0;
        while k < self.items.len()
            invariant
                k <= self.items@.len(),
                iv == text_views(self.items@),
                iv.no_duplicates(),
                keys@.len() == members@.len(),
                forall|j: int| 0 <= j < keys@.len() ==> (#[trigger] keys@[j])@ == members@[j]@,
                forall|a: int, b: int|
                    0 <= a < b < members@.len() ==> text_lt(#[trigger] text_views(members@)[a], #[trigger] text_views(members@)[b]),
                forall|y: Seq<char>| #[trigger] text_views(members@).contains(y) <==> iv.take(k as int).contains(y),
            decreases self.items.len() - k,
        {
            let ghost mv = text_views(members@);
            let item = self.items[k].clone();
            assert(iv[k as int] == item@);
            let key = chars_of(item.as_str());
            proof {
                if mv.contains(item@) {
                    let j = choose|j: int| 0 <= j < k && #[trigger] iv.take(k as int)[j] == item@;
                    assert(iv[j] == iv[k as int]);
                }
            }
            let mut p: usize = 0;
            while p < keys.len() && !text_less(&key, &keys[p])
                invariant
                    p <= keys@.len(),
                    keys@.len() == members@.len(),
                    mv == text_views(members@),
                    key@ == item@,
                    forall|j: int| 0 <= j < keys@.len() ==> (#[trigger] keys@[j])@ == members@[j]@,
                    forall|t: int| 0 <= t < p ==> !text_lt(item@, #[trigger] mv[t]),
                decreases keys@.len() - p,
            {
                assert(keys@[p as int]@ == mv[p as int]);
                p = p + 1;
            }
            assert(p < keys@.len() ==> text_lt(item@, mv[p as int])) by {
                if p < keys@.len() {
                    assert(keys@[p as int]@ == mv[p as int]);
                }
            }
            members.insert(p, item);
            keys.insert(p, key);
            let ghost nv = text_views(members@);
            assert(nv =~= mv.insert(p as int, item@));
            assert forall|a: int, b: int| 0 <= a < b < nv.len() implies text_lt(#[trigger] nv[a], #[trigger] nv[b]) by {
                if b < p {
                    assert(nv[a] == mv[a] && nv[b] == mv[b]);
                } else if b == p {
                    assert(nv[a] == mv[a]);
                    assert(!text_lt(item@, mv[a]));
                    assert(mv[a] != item@) by {
                        assert(mv.contains(mv[a]));
                    }
                    lemma_text_lt_total(item@, mv[a]);
                } else if a > p {
                    assert(nv[a] == mv[a - 1] && nv[b] == mv[b - 1]);
                } else if a == p {
                    assert(nv[b] == mv[b - 1]);
                    if b - 1 > p {
                        lemma_text_lt_transitive(item@, mv[p as int], mv[b - 1]);
                    }
                } else {
                    assert(nv[a] == mv[a] && nv[b] == mv[b - 1]);
                }
            }
            assert(iv.take(k + 1) =~= iv.take(k as int).push(item@));
            assert forall|y: Seq<char>| #[trigger] nv.contains(y) <==> iv.take(k + 1).contains(y) by {
                let tk = iv.take(k as int);
                if nv.contains(y) {
                    let j = choose|j: int| 0 <= j < nv.len() && nv[j] == y;
                    if j == p {
                        assert(tk.push(item@)[k as int] == y);
                    } else {
                        if j < p {
                            assert(mv[j] == y);
                        } else {
                            assert(mv[j - 1] == y);
                        }
                        assert(mv.contains(y));
                        assert(tk.contains(y));
                        let i = choose|i: int| 0 <= i < tk.len() && tk[i] == y;
                        assert(tk.push(item@)[i] == y);
                    }
                    assert(tk.push(item@).contains(y));
                }
                if iv.take(k + 1).contains(y) {
                    let j = choose|j: int| 0 <= j < k + 1 && #[trigger] iv.take(k + 1)[j] == y;
                    if j < k {
                        assert(iv.take(k as int)[j] == y);
                        assert(iv.take(k as int).contains(y));
                        assert(mv.contains(y));
                        let i = choose|i: int| 0 <= i < mv.len() && mv[i] == y;
                        if i < p {
                            assert(nv[i] == y);
                        } else {
                            assert(nv[i + 1] == y);
                        }
                    } else {
                        assert(nv[p as int] == y);
                    }
                }
            }
            k = k + 1;
        }
        let ghost mv = text_views(members@);
        assert(iv.take(k as int) =~= iv);
        assert(mv.to_set() =~= iv.to_set());
        assert forall|a: int, b: int| 0 <= a < mv.len() && 0 <= b < mv.len() && a != b implies mv[a] != mv[b] by {
            if a < b {
                assert(text_lt(mv[a], mv[b]));
                if mv[a] == mv[b] {
                    lemma_text_lt_irreflexive(mv[a]);
                }
            } else {
                assert(text_lt(mv[b], mv[a]));
                if mv[a] == mv[b] {
                    lemma_text_lt_irreflexive(mv[a]);
                }
            }
        }
        members
    }
}

} // verus!
