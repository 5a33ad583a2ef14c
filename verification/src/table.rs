//! Sorted index tables.
//!
//! A table is a set of `(key, item id)` compound keys kept in strictly
//! increasing order, so that range queries can walk it in either
//! direction and resume after a cursor.

use vstd::prelude::*;

use crate::keys::{
    entry_less, entry_lt, entry_view, key_eq, key_less, key_lt, lemma_entry_lt_transitive,
    lemma_entry_lt_trichotomy, EntryView, IndexKey, KeyView,
};

verus! {

/// The model of a vector of compound keys.
pub open spec fn entries_view(v: Seq<(IndexKey, u64)>) -> Seq<EntryView> {
    Seq::new(v.len(), |i: int| entry_view(v[i]))
}

/// Whether a sequence of compound keys is strictly increasing.
pub open spec fn entries_sorted(s: Seq<EntryView>) -> bool {
    forall|i: int, j: int| 0 <= i < j < s.len() ==> entry_lt(#[trigger] s[i], #[trigger] s[j])
}

/// A sorted set of `(key, item id)` compound keys.
#[derive(Debug)]
pub struct IndexTable {
    entries: Vec<(IndexKey, u64)>,
}

impl View for IndexTable {
    type V = Seq<EntryView>;

    closed spec fn view(&self) -> Seq<EntryView> {
        entries_view(self.entries@)
    }
}

/// In a strictly sorted sequence every compound key appears at most
/// once, so two positions holding the same entry coincide.
pub proof fn lemma_sorted_unique(s: Seq<EntryView>, i: int, j: int)
    requires
        entries_sorted(s),
        0 <= i < s.len(),
        0 <= j < s.len(),
        s[i] == s[j],
    ensures
        i == j,
{
    if i < j {
        assert(entry_lt(s[i], s[j]));
        lemma_entry_lt_trichotomy(s[i], s[j]);
    } else if j < i {
        assert(entry_lt(s[j], s[i]));
        lemma_entry_lt_trichotomy(s[j], s[i]);
    }
}

impl IndexTable {
    /// Whether the table is well formed: strictly sorted.
    pub open spec fn wf(&self) -> bool {
        entries_sorted(self@)
    }

    /// Creates an empty table.
    pub fn new() -> (r: Self)
        ensures
            r.wf(),
            r@ == Seq::<EntryView>::empty(),
    {
        let r = IndexTable { entries: Vec::new() };
        proof {
            assert(r@ =~= Seq::<EntryView>::empty());
        }
        r
    }

    /// Number of live compound keys.
    pub fn len(&self) -> (r: usize)
        ensures
            r == self@.len(),
    {
        self.entries.len()
    }

    /// Whether the compound key `(key, id)` is in the table.
    pub fn contains(&self, key: &IndexKey, id: u64) -> (r: bool)
        ensures
            r == self@.contains((key@, id)),
    {
        let mut i: usize = 0;
        while i < self.entries.len()
            invariant
                i <= self@.len(),
                forall|j: int| 0 <= j < i ==> self@[j] != (key@, id),
            decreases self@.len() - i,
        {
            let e = &self.entries[i];
            if key_eq(&e.0, key) && e.1 == id {
                assert(self@[i as int] == (key@, id));
                return true;
            }
            i = i + 1;
        }
        proof {
            if self@.contains((key@, id)) {
                let j = choose|j: int| 0 <= j < self@.len() && self@[j] == (key@, id);
                assert(self@[j] != (key@, id));
            }
        }
        false
    }

    /// Index of the first entry not below `(key, id)`, or the length if
    /// every entry is below it.
    fn lower_bound(&self, key: &IndexKey, id: u64) -> (pos: usize)
        requires
            self.wf(),
        ensures
            pos <= self@.len(),
            forall|j: int| 0 <= j < pos ==> entry_lt(#[trigger] self@[j], (key@, id)),
            pos < self@.len() ==> !entry_lt(self@[pos as int], (key@, id)),
    {
        let mut i: usize = 0;
        while i < self.entries.len()
            invariant
                i <= self@.len(),
                forall|j: int| 0 <= j < i ==> entry_lt(#[trigger] self@[j], (key@, id)),
            decreases self@.len() - i,
        {
            let e = &self.entries[i];
            let probe = (e.0.clone(), e.1);
            if !entry_less(&probe, &(key.clone(), id)) {
                return i;
            }
            assert(entry_lt(self@[i as int], (key@, id)));
            i = i + 1;
        }
        i
    }

    /// Inserts the compound key `(key, id)`; inserting one that is
    /// already present leaves the table unchanged.
    pub fn insert(&mut self, key: IndexKey, id: u64)
        requires
            old(self).wf(),
        ensures
            final(self).wf(),
            forall|e: EntryView|
                #[trigger] final(self)@.contains(e) <==> (old(self)@.contains(e) || e == (
                key@,
                id,
                )),
            old(self)@.contains((key@, id)) ==> final(self)@ == old(self)@,
            !old(self)@.contains((key@, id)) ==> final(self)@.len() == old(self)@.len() + 1,
            final(self)@.len() <= usize::MAX,
    {
        proof {
            vstd::std_specs::vec::axiom_spec_len(&self.entries);
        }
        let ghost t: EntryView = (key@, id);
        let pos = self.lower_bound(&key, id);
        if pos < self.entries.len() {
            let e = &self.entries[pos];
            if key_eq(&e.0, &key) && e.1 == id {
                proof {
                    assert(self@[pos as int] == t);
                    assert(self@.contains(t));
                    assert(forall|e: EntryView|
                        #[trigger] self@.contains(e) <==> (self@.contains(e) || e == t));
                }
                return ;
            }
        }
        proof {
            // (key, id) is not present: entries before pos are below it,
            // entries from pos on are above it.
            if pos < self@.len() {
                lemma_entry_lt_trichotomy(self@[pos as int], t);
            }
            assert(forall|j: int|
                pos <= j < self@.len() ==> entry_lt(t, #[trigger] self@[j])) by {
                assert forall|j: int| pos <= j < self@.len() implies entry_lt(
                    t,
                    #[trigger] self@[j],
                ) by {
                    if j > pos {
                        assert(entry_lt(self@[pos as int], self@[j]));
                        lemma_entry_lt_transitive(t, self@[pos as int], self@[j]);
                    }
                }
            }
            if self@.contains(t) {
                let j = choose|j: int| 0 <= j < self@.len() && self@[j] == t;
                lemma_entry_lt_trichotomy(self@[j], t);
            }
        }
        let ghost pre = self@;
        self.entries.insert(pos, (key, id));
        proof {
            vstd::std_specs::vec::axiom_spec_len(&self.entries);
            assert(forall|j: int|
                0 <= j < pre.len() + 1 ==> #[trigger] self@[j] == if j < pos {
                    pre[j]
                } else if j == pos {
                    t
                } else {
                    pre[j - 1]
                });
            assert(entries_sorted(self@)) by {
                assert forall|i: int, j: int| 0 <= i < j < self@.len() implies entry_lt(
                    #[trigger] self@[i],
                    #[trigger] self@[j],
                ) by {}
            }
            assert forall|e: EntryView| #[trigger] self@.contains(e) <==> (pre.contains(e) || e
                == t) by {
                if self@.contains(e) {
                    let j = choose|j: int| 0 <= j < self@.len() && self@[j] == e;
                    if j < pos {
                        assert(pre[j] == e);
                        assert(pre.contains(e));
                    } else if j > pos {
                        assert(pre[j - 1] == e);
                        assert(pre.contains(e));
                    }
                }
                if pre.contains(e) {
                    let j = choose|j: int| 0 <= j < pre.len() && pre[j] == e;
                    if j < pos {
                        assert(self@[j] == e);
                    } else {
                        assert(self@[j + 1] == e);
                    }
                    assert(self@.contains(e));
                }
                if e == t {
                    assert(self@[pos as int] == e);
                    assert(self@.contains(e));
                }
            }
        }
    }

    /// Removes the compound key `(key, id)`; removing one that is absent
    /// leaves the table unchanged.
    pub fn remove(&mut self, key: &IndexKey, id: u64)
        requires
            old(self).wf(),
        ensures
            final(self).wf(),
            forall|e: EntryView|
                #[trigger] final(self)@.contains(e) <==> (old(self)@.contains(e) && e != (
                key@,
                id,
                )),
            !old(self)@.contains((key@, id)) ==> final(self)@ == old(self)@,
            old(self)@.contains((key@, id)) ==> final(self)@.len() == old(self)@.len() - 1,
    {
        let ghost t: EntryView = (key@, id);
        let mut i: usize = 0;
        while i < self.entries.len()
            invariant
                i <= self@.len(),
                self == old(self),
                forall|j: int| 0 <= j < i ==> self@[j] != t,
            decreases self@.len() - i,
        {
            let e = &self.entries[i];
            if key_eq(&e.0, key) && e.1 == id {
                assert(self@[i as int] == t);
                let ghost pre = self@;
                self.entries.remove(i);
                proof {
                    assert(forall|j: int|
                        0 <= j < pre.len() - 1 ==> #[trigger] self@[j] == if j < i {
                            pre[j]
                        } else {
                            pre[j + 1]
                        });
                    assert(entries_sorted(self@));
                    assert forall|e: EntryView| #[trigger] self@.contains(e) <==> (pre.contains(e)
                        && e != t) by {
                        if self@.contains(e) {
                            let j = choose|j: int| 0 <= j < self@.len() && self@[j] == e;
                            if j < i {
                                assert(pre[j] == e);
                                if e == t {
                                    lemma_sorted_unique(pre, j, i as int);
                                }
                                assert(e != t);
                            } else {
                                assert(pre[j + 1] == e);
                                if e == t {
                                    lemma_sorted_unique(pre, j + 1, i as int);
                                }
                                assert(e != t);
                            }
                            assert(pre.contains(e));
                        }
                        if pre.contains(e) && e != t {
                            let j = choose|j: int| 0 <= j < pre.len() && pre[j] == e;
                            if j < i {
                                assert(self@[j] == e);
                            } else {
                                assert(j != i);
                                assert(self@[j - 1] == e);
                            }
                            assert(self@.contains(e));
                        }
                    }
                    assert(pre.contains(t)) by {
                        assert(pre[i as int] == t);
                    }
                }
                return ;
            }
            i = i + 1;
        }
        proof {
            if self@.contains(t) {
                let j = choose|j: int| 0 <= j < self@.len() && self@[j] == t;
                assert(self@[j] != t);
            }
        }
    }
}


// ---------------------------------------------------------------------
// Range selection with keyset pagination.
// ---------------------------------------------------------------------

/// Whether an entry's key lies in the queried value range: at or above
/// `lo`, and below `hi` (at or below when `hi_incl`).
pub open spec fn in_key_range(
    e: EntryView,
    lo: Option<KeyView>,
    hi: Option<KeyView>,
    hi_incl: bool,
) -> bool {
    (match lo {
        Option::None => true,
        Option::Some(l) => !key_lt(e.0, l),
    }) && (match hi {
        Option::None => true,
        Option::Some(h) => if hi_incl {
            !key_lt(h, e.0)
        } else {
            key_lt(e.0, h)
        },
    })
}

/// Whether an entry comes strictly after the cursor in traversal order.
pub open spec fn strictly_after(e: EntryView, c: EntryView, desc: bool) -> bool {
    if desc {
        entry_lt(e, c)
    } else {
        entry_lt(c, e)
    }
}

/// The page predicate: in range, and past the cursor if one is given.
pub open spec fn page_pred(
    e: EntryView,
    lo: Option<KeyView>,
    hi: Option<KeyView>,
    hi_incl: bool,
    desc: bool,
    cursor: Option<EntryView>,
) -> bool {
    in_key_range(e, lo, hi, hi_incl) && (match cursor {
        Option::None => true,
        Option::Some(c) => strictly_after(e, c, desc),
    })
}

/// The first `n` elements, or all of them when fewer than `n` remain.
pub open spec fn take_at_most(s: Seq<EntryView>, n: int) -> Seq<EntryView> {
    if n >= s.len() {
        s
    } else {
        s.take(n)
    }
}

/// Every entry the traversal would visit, in traversal order: the
/// matching entries past the cursor, reversed for a descending scan.
pub open spec fn scan_spec(
    s: Seq<EntryView>,
    lo: Option<KeyView>,
    hi: Option<KeyView>,
    hi_incl: bool,
    desc: bool,
    cursor: Option<EntryView>,
) -> Seq<EntryView> {
    let m = s.filter(|e: EntryView| page_pred(e, lo, hi, hi_incl, desc, cursor));
    if desc {
        m.reverse()
    } else {
        m
    }
}

/// One page: the first `limit` entries of the traversal.
pub open spec fn page_spec(
    s: Seq<EntryView>,
    lo: Option<KeyView>,
    hi: Option<KeyView>,
    hi_incl: bool,
    desc: bool,
    limit: int,
    cursor: Option<EntryView>,
) -> Seq<EntryView> {
    take_at_most(scan_spec(s, lo, hi, hi_incl, desc, cursor), limit)
}

/// The model of an optional key argument.
pub open spec fn opt_key_view(o: Option<&IndexKey>) -> Option<KeyView> {
    match o {
        Option::None => Option::None,
        Option::Some(k) => Option::Some(k@),
    }
}

/// The model of an optional cursor argument.
pub open spec fn opt_entry_view(o: Option<&(IndexKey, u64)>) -> Option<EntryView> {
    match o {
        Option::None => Option::None,
        Option::Some(c) => Option::Some(entry_view(*c)),
    }
}

pub proof fn lemma_filter_push(s: Seq<EntryView>, x: EntryView, p: spec_fn(EntryView) -> bool)
    ensures
        s.push(x).filter(p) == if p(x) {
            s.filter(p).push(x)
        } else {
            s.filter(p)
        },
{
    reveal(Seq::filter);
    assert(s.push(x).drop_last() =~= s);
    assert(s.push(x).last() == x);
}

proof fn lemma_take_at_most_len(s: Seq<EntryView>, n: int)
    requires
        n >= 0,
    ensures
        take_at_most(s, n).len() == if n >= s.len() {
            s.len() as int
        } else {
            n
        },
{
}

proof fn lemma_take_at_most_push(f: Seq<EntryView>, x: EntryView, n: int)
    requires
        n >= 0,
    ensures
        take_at_most(f.push(x), n) == if f.len() < n {
            take_at_most(f, n).push(x)
        } else {
            take_at_most(f, n)
        },
{
    if f.len() < n {
        if n >= f.len() + 1 {
            assert(take_at_most(f.push(x), n) =~= take_at_most(f, n).push(x));
        }
    } else {
        assert(f.push(x).take(n) =~= take_at_most(f, n));
    }
}

impl IndexTable {
    /// Returns one page of compound keys: those whose key lies in the
    /// given range, strictly after the cursor if one is given, walked
    /// ascending or descending, at most `limit` of them.
    #[verifier::rlimit(100)]
    pub fn select_page(
        &self,
        lo: Option<&IndexKey>,
        hi: Option<&IndexKey>,
        hi_incl: bool,
        desc: bool,
        limit: usize,
        cursor: Option<&(IndexKey, u64)>,
    ) -> (page: Vec<(IndexKey, u64)>)
        ensures
            entries_view(page@) == page_spec(
                self@,
                opt_key_view(lo),
                opt_key_view(hi),
                hi_incl,
                desc,
                limit as int,
                opt_entry_view(cursor),
            ),
    {
        let ghost lov = opt_key_view(lo);
        let ghost hiv = opt_key_view(hi);
        let ghost cv = opt_entry_view(cursor);
        let ghost p = |e: EntryView| page_pred(e, lov, hiv, hi_incl, desc, cv);
        let mut page: Vec<(IndexKey, u64)> = Vec::new();
        proof {
            assert(entries_view(page@) =~= Seq::<EntryView>::empty());
            assert(Seq::<EntryView>::empty().filter(p) =~= Seq::<EntryView>::empty()) by {
                reveal(Seq::filter);
            }
        }
        if desc {
            let mut i: usize = self.entries.len();
            proof {
                assert(self@.skip(i as int) =~= Seq::<EntryView>::empty());
                assert(Seq::<EntryView>::empty().reverse() =~= Seq::<EntryView>::empty());
            }
            while i > 0
                invariant
                    i <= self@.len(),
                    page@.len() <= limit,
                    entries_view(page@) == take_at_most(
                        self@.skip(i as int).filter(p).reverse(),
                        limit as int,
                    ),
                decreases i,
            {
                i = i - 1;
                let e = &self.entries[i];
                let ghost ev = self@[i as int];
                let ghost pre_page = page@;
                let ghost f = self@.skip(i + 1).filter(p).reverse();
                let keep = self.entry_matches(i, lo, hi, hi_incl, desc, cursor);
                if keep && page.len() < limit {
                    page.push((e.0.clone(), e.1));
                }
                proof {
                    assert(self@.skip(i as int) =~= seq![ev] + self@.skip(i + 1));
                    Seq::filter_distributes_over_add(seq![ev], self@.skip(i + 1), p);
                    assert(seq![ev].filter(p) == if p(ev) {
                        seq![ev]
                    } else {
                        Seq::<EntryView>::empty()
                    }) by {
                        reveal(Seq::filter);
                        assert(seq![ev].drop_last() =~= Seq::<EntryView>::empty());
                        if p(ev) {
                            assert(Seq::<EntryView>::empty().push(ev) =~= seq![ev]);
                        }
                    }
                    if p(ev) {
                        assert(self@.skip(i as int).filter(p).reverse() =~= f.push(ev));
                        lemma_take_at_most_push(f, ev, limit as int);
                        if f.len() < limit {
                            assert(entries_view(page@) =~= entries_view(pre_page).push(ev));
                        } else {
                            assert(page@ == pre_page);
                        }
                    } else {
                        assert(self@.skip(i as int).filter(p).reverse() =~= f);
                    }
                }
            }
            proof {
                assert(self@.skip(0) =~= self@);
            }
        } else {
            let mut i: usize = 0;
            proof {
                assert(self@.take(0) =~= Seq::<EntryView>::empty());
            }
            while i < self.entries.len()
                invariant
                    i <= self@.len(),
                    page@.len() <= limit,
                    entries_view(page@) == take_at_most(
                        self@.take(i as int).filter(p),
                        limit as int,
                    ),
                decreases self@.len() - i,
            {
                let e = &self.entries[i];
                let ghost ev = self@[i as int];
                let ghost pre_page = page@;
                let ghost f = self@.take(i as int).filter(p);
                let keep = self.entry_matches(i, lo, hi, hi_incl, desc, cursor);
                if keep && page.len() < limit {
                    page.push((e.0.clone(), e.1));
                }
                proof {
                    assert(self@.take(i + 1) =~= self@.take(i as int).push(ev));
                    lemma_filter_push(self@.take(i as int), ev, p);
                    if p(ev) {
                        lemma_take_at_most_push(f, ev, limit as int);
                        if f.len() < limit {
                            assert(entries_view(page@) =~= entries_view(pre_page).push(ev));
                        } else {
                            assert(page@ == pre_page);
                        }
                    }
                }
                i = i + 1;
            }
            proof {
                assert(self@.take(self@.len() as int) =~= self@);
            }
        }
        page
    }

    /// Whether the entry at position `i` belongs to the queried page.
    fn entry_matches(
        &self,
        i: usize,
        lo: Option<&IndexKey>,
        hi: Option<&IndexKey>,
        hi_incl: bool,
        desc: bool,
        cursor: Option<&(IndexKey, u64)>,
    ) -> (r: bool)
        requires
            i < self@.len(),
        ensures
            r == page_pred(
                self@[i as int],
                opt_key_view(lo),
                opt_key_view(hi),
                hi_incl,
                desc,
                opt_entry_view(cursor),
            ),
    {
        let e = &self.entries[i];
        let lo_ok = match lo {
            Option::None => true,
            Option::Some(l) => !key_less(&e.0, l),
        };
        let hi_ok = match hi {
            Option::None => true,
            Option::Some(h) => if hi_incl {
                !key_less(h, &e.0)
            } else {
                key_less(&e.0, h)
            },
        };
        let cur_ok = match cursor {
            Option::None => true,
            Option::Some(c) => if desc {
                entry_less(e, c)
            } else {
                entry_less(c, e)
            },
        };
        lo_ok && hi_ok && cur_ok
    }
}


// ---------------------------------------------------------------------
// Keyset pagination laws.
// ---------------------------------------------------------------------

pub proof fn lemma_filter_subset(s: Seq<EntryView>, p: spec_fn(EntryView) -> bool)
    ensures
        forall|x: EntryView| #[trigger] s.filter(p).contains(x) ==> s.contains(x),
    decreases s.len(),
{
    reveal(Seq::filter);
    if s.len() > 0 {
        lemma_filter_subset(s.drop_last(), p);
        assert forall|x: EntryView| #[trigger] s.filter(p).contains(x) implies s.contains(x) by {
            let f = s.filter(p);
            let j = choose|j: int| 0 <= j < f.len() && f[j] == x;
            if p(s.last()) && j == f.len() - 1 {
                assert(s[s.len() - 1] == x);
            } else {
                assert(s.drop_last().filter(p).contains(x));
                let m = choose|m: int|
                    0 <= m < s.drop_last().len() && s.drop_last()[m] == x;
                assert(s[m] == x);
            }
        }
    }
}

proof fn lemma_filter_sorted(s: Seq<EntryView>, p: spec_fn(EntryView) -> bool)
    requires
        entries_sorted(s),
    ensures
        entries_sorted(s.filter(p)),
    decreases s.len(),
{
    reveal(Seq::filter);
    if s.len() > 0 {
        assert(entries_sorted(s.drop_last()));
        lemma_filter_sorted(s.drop_last(), p);
        lemma_filter_subset(s.drop_last(), p);
        let f = s.filter(p);
        let sub = s.drop_last().filter(p);
        if p(s.last()) {
            assert(f == sub.push(s.last()));
            assert forall|i: int, j: int| 0 <= i < j < f.len() implies entry_lt(
                #[trigger] f[i],
                #[trigger] f[j],
            ) by {
                if j < f.len() - 1 {
                    assert(entry_lt(sub[i], sub[j]));
                } else {
                    assert(sub.contains(f[i])) by {
                        assert(sub[i] == f[i]);
                    }
                    assert(s.drop_last().contains(f[i]));
                    let m = choose|m: int|
                        0 <= m < s.drop_last().len() && s.drop_last()[m] == f[i];
                    assert(s[m] == f[i]);
                    assert(entry_lt(s[m], s[s.len() - 1]));
                }
            }
        }
    }
}

proof fn lemma_filter_split(
    s: Seq<EntryView>,
    pq: spec_fn(EntryView) -> bool,
    p: spec_fn(EntryView) -> bool,
    q: spec_fn(EntryView) -> bool,
)
    requires
        forall|e: EntryView| #[trigger] pq(e) == (p(e) && q(e)),
    ensures
        s.filter(pq) == s.filter(p).filter(q),
    decreases s.len(),
{
    reveal(Seq::filter);
    if s.len() > 0 {
        lemma_filter_split(s.drop_last(), pq, p, q);
        if p(s.last()) {
            lemma_filter_push(s.drop_last().filter(p), s.last(), q);
        }
    }
}

proof fn lemma_filter_gt(f: Seq<EntryView>, c: EntryView, k: int)
    requires
        entries_sorted(f),
        0 <= k < f.len(),
        f[k] == c,
    ensures
        f.filter(|e: EntryView| strictly_after(e, c, false)) == f.skip(k + 1),
    decreases f.len(),
{
    reveal(Seq::filter);
    let p = |e: EntryView| strictly_after(e, c, false);
    if k == f.len() - 1 {
        assert(forall|i: int| 0 <= i < f.len() ==> !p(#[trigger] f[i])) by {
            assert forall|i: int| 0 <= i < f.len() implies !p(f[i]) by {
                if i < k {
                    assert(entry_lt(f[i], c));
                    lemma_entry_lt_trichotomy(f[i], c);
                } else {
                    lemma_entry_lt_trichotomy(c, c);
                }
            }
        }
        lemma_filter_none(f, p);
        assert(f.skip(k + 1) =~= Seq::<EntryView>::empty());
    } else {
        assert(entries_sorted(f.drop_last()));
        assert(f.drop_last()[k] == c);
        lemma_filter_gt(f.drop_last(), c, k);
        assert(p(f.last())) by {
            assert(entry_lt(f[k], f[f.len() - 1]));
        }
        assert(f.filter(p) == f.drop_last().filter(p).push(f.last()));
        assert(f.skip(k + 1) =~= f.drop_last().skip(k + 1).push(f.last()));
    }
}

proof fn lemma_filter_lt(f: Seq<EntryView>, c: EntryView, k: int)
    requires
        entries_sorted(f),
        0 <= k < f.len(),
        f[k] == c,
    ensures
        f.filter(|e: EntryView| strictly_after(e, c, true)) == f.take(k),
    decreases f.len(),
{
    reveal(Seq::filter);
    let p = |e: EntryView| strictly_after(e, c, true);
    if k == f.len() - 1 {
        assert(forall|i: int| 0 <= i < f.drop_last().len() ==> p(#[trigger] f.drop_last()[i]))
            by {
            assert forall|i: int| 0 <= i < f.drop_last().len() implies p(f.drop_last()[i]) by {
                assert(entry_lt(f[i], f[k]));
            }
        }
        lemma_filter_all(f.drop_last(), p);
        assert(!p(f.last())) by {
            lemma_entry_lt_trichotomy(c, c);
        }
        assert(f.filter(p) == f.drop_last().filter(p));
        assert(f.take(k) =~= f.drop_last());
    } else {
        assert(entries_sorted(f.drop_last()));
        assert(f.drop_last()[k] == c);
        lemma_filter_lt(f.drop_last(), c, k);
        assert(!p(f.last())) by {
            assert(entry_lt(f[k], f[f.len() - 1]));
            lemma_entry_lt_trichotomy(f[f.len() - 1], c);
        }
        assert(f.filter(p) == f.drop_last().filter(p));
        assert(f.take(k) =~= f.drop_last().take(k));
    }
}

proof fn lemma_filter_all(s: Seq<EntryView>, p: spec_fn(EntryView) -> bool)
    requires
        forall|i: int| 0 <= i < s.len() ==> p(#[trigger] s[i]),
    ensures
        s.filter(p) == s,
    decreases s.len(),
{
    reveal(Seq::filter);
    if s.len() > 0 {
        assert(forall|i: int| 0 <= i < s.drop_last().len() ==> p(#[trigger] s.drop_last()[i]));
        lemma_filter_all(s.drop_last(), p);
        assert(s.filter(p) =~= s);
    }
}

proof fn lemma_filter_none(s: Seq<EntryView>, p: spec_fn(EntryView) -> bool)
    requires
        forall|i: int| 0 <= i < s.len() ==> !p(#[trigger] s[i]),
    ensures
        s.filter(p) == Seq::<EntryView>::empty(),
    decreases s.len(),
{
    reveal(Seq::filter);
    if s.len() > 0 {
        assert(forall|i: int| 0 <= i < s.drop_last().len() ==> !p(#[trigger] s.drop_last()[i]));
        lemma_filter_none(s.drop_last(), p);
    } else {
        assert(s.filter(p) =~= Seq::<EntryView>::empty());
    }
}

/// Resuming a scan at an entry it visited continues exactly where that
/// entry left off: the traversal for the new cursor is the tail of the
/// old traversal just past that entry.
pub proof fn lemma_scan_after_cursor(
    s: Seq<EntryView>,
    lo: Option<KeyView>,
    hi: Option<KeyView>,
    hi_incl: bool,
    desc: bool,
    cursor: Option<EntryView>,
    k: int,
)
    requires
        entries_sorted(s),
        0 <= k < scan_spec(s, lo, hi, hi_incl, desc, cursor).len(),
    ensures
        scan_spec(
            s,
            lo,
            hi,
            hi_incl,
            desc,
            Option::Some(scan_spec(s, lo, hi, hi_incl, desc, cursor)[k]),
        ) == scan_spec(s, lo, hi, hi_incl, desc, cursor).skip(k + 1),
{
    let p0 = |e: EntryView| page_pred(e, lo, hi, hi_incl, desc, cursor);
    let f = s.filter(p0);
    let trav = scan_spec(s, lo, hi, hi_incl, desc, cursor);
    let c = trav[k];
    lemma_filter_sorted(s, p0);
    let p1 = |e: EntryView| page_pred(e, lo, hi, hi_incl, desc, Option::Some(c));
    let q = |e: EntryView| strictly_after(e, c, desc);
    assert(f.contains(c)) by {
        if desc {
            assert(f[f.len() - 1 - k] == c);
        } else {
            assert(f[k] == c);
        }
    }
    assert(p0(c)) by {
        let j = choose|j: int| 0 <= j < f.len() && f[j] == c;
        Seq::lemma_filter_pred(s, p0, j);
    }
    assert(forall|e: EntryView| #[trigger] p1(e) == (p0(e) && q(e))) by {
        assert forall|e: EntryView| #[trigger] p1(e) == (p0(e) && q(e)) by {
            match cursor {
                Option::None => {},
                Option::Some(c0) => {
                    if in_key_range(e, lo, hi, hi_incl) && strictly_after(e, c, desc) {
                        assert(strictly_after(c, c0, desc));
                        if desc {
                            lemma_entry_lt_transitive(e, c, c0);
                        } else {
                            lemma_entry_lt_transitive(c0, c, e);
                        }
                    }
                },
            }
        }
    }
    lemma_filter_split(s, p1, p0, q);
    assert(s.filter(p1) == f.filter(q));
    if desc {
        let j = f.len() - 1 - k;
        assert(f[j] == c);
        lemma_filter_lt(f, c, j);
        assert(s.filter(p1) == f.take(j));
        assert(f.take(j).reverse() =~= f.reverse().skip(k + 1));
    } else {
        assert(f[k] == c);
        lemma_filter_gt(f, c, k);
        assert(s.filter(p1) == f.skip(k + 1));
    }
}

/// Concatenation of every page obtained by starting from `cursor` and
/// repeatedly following returned cursors: a page that fills the limit
/// hands its last entry on as the next cursor; a shorter page ends the
/// walk.  `fuel` bounds the recursion and any amount at least the
/// remaining traversal length is enough.
pub open spec fn pages_concat(
    s: Seq<EntryView>,
    lo: Option<KeyView>,
    hi: Option<KeyView>,
    hi_incl: bool,
    desc: bool,
    limit: int,
    cursor: Option<EntryView>,
    fuel: nat,
) -> Seq<EntryView>
    decreases fuel,
{
    if fuel == 0 {
        Seq::empty()
    } else {
        let page = page_spec(s, lo, hi, hi_incl, desc, limit, cursor);
        if page.len() == limit && page.len() > 0 {
            page + pages_concat(
                s,
                lo,
                hi,
                hi_incl,
                desc,
                limit,
                Option::Some(page.last()),
                (fuel - 1) as nat,
            )
        } else {
            page
        }
    }
}

/// Keyset pagination is complete: for a fixed bound specification and
/// order, concatenating every page obtained by repeatedly following
/// returned cursors yields exactly the sequence a single unlimited scan
/// would return — no duplicates, no omissions, same order.
pub proof fn lemma_pagination_completeness(
    s: Seq<EntryView>,
    lo: Option<KeyView>,
    hi: Option<KeyView>,
    hi_incl: bool,
    desc: bool,
    limit: int,
    cursor: Option<EntryView>,
    fuel: nat,
)
    requires
        entries_sorted(s),
        limit >= 1,
        fuel >= scan_spec(s, lo, hi, hi_incl, desc, cursor).len() + 1,
    ensures
        pages_concat(s, lo, hi, hi_incl, desc, limit, cursor, fuel) == scan_spec(
            s,
            lo,
            hi,
            hi_incl,
            desc,
            cursor,
        ),
    decreases fuel,
{
    let trav = scan_spec(s, lo, hi, hi_incl, desc, cursor);
    let page = page_spec(s, lo, hi, hi_incl, desc, limit, cursor);
    if page.len() == limit {
        assert(limit <= trav.len());
        let c = trav[limit - 1];
        assert(page.last() == c) by {
            if limit < trav.len() {
                assert(page == trav.take(limit));
            }
        }
        lemma_scan_after_cursor(s, lo, hi, hi_incl, desc, cursor, limit - 1);
        let rest = scan_spec(s, lo, hi, hi_incl, desc, Option::Some(c));
        assert(rest == trav.skip(limit));
        lemma_pagination_completeness(
            s,
            lo,
            hi,
            hi_incl,
            desc,
            limit,
            Option::Some(c),
            (fuel - 1) as nat,
        );
        assert(page + rest =~= trav) by {
            if limit < trav.len() {
                assert(page == trav.take(limit));
            } else {
                assert(page == trav);
                assert(rest.len() == 0);
            }
        }
    } else {
        assert(page == trav);
    }
}


impl IndexTable {
    /// Removes every compound key of one item, whatever its key value.
    pub fn remove_id(&mut self, id: u64)
        requires
            old(self).wf(),
        ensures
            final(self).wf(),
            forall|e: EntryView|
                #[trigger] final(self)@.contains(e) <==> (old(self)@.contains(e) && e.1 != id),
            final(self)@ == old(self)@.filter(|e: EntryView| e.1 != id),
    {
        let ghost p = |e: EntryView| e.1 != id;
        let mut out: Vec<(IndexKey, u64)> = Vec::new();
        proof {
            assert(entries_view(out@) =~= Seq::<EntryView>::empty());
            assert(Seq::<EntryView>::empty().filter(p) =~= Seq::<EntryView>::empty()) by {
                reveal(Seq::filter);
            }
        }
        let mut i: usize = 0;
        while i < self.entries.len()
            invariant
                i <= self@.len(),
                self == old(self),
                entries_view(out@) == self@.take(i as int).filter(p),
            decreases self@.len() - i,
        {
            let e = &self.entries[i];
            let ghost ev = self@[i as int];
            proof {
                assert(self@.take(i + 1) =~= self@.take(i as int).push(ev));
                lemma_filter_push(self@.take(i as int), ev, p);
            }
            if e.1 != id {
                out.push((e.0.clone(), e.1));
                proof {
                    assert(entries_view(out@) =~= self@.take(i + 1).filter(p));
                }
            }
            i = i + 1;
        }
        proof {
            assert(self@.take(self@.len() as int) =~= self@);
            lemma_filter_sorted(self@, p);
            lemma_filter_subset(self@, p);
        }
        self.entries = out;
        proof {
            let pre = old(self)@;
            assert(self@ == pre.filter(p));
            assert forall|e: EntryView| #[trigger] self@.contains(e) <==> (pre.contains(e) && e.1
                != id) by {
                if self@.contains(e) {
                    let j = choose|j: int| 0 <= j < self@.len() && self@[j] == e;
                    Seq::lemma_filter_pred(pre, p, j);
                    assert(pre.filter(p).contains(e));
                }
                if pre.contains(e) && e.1 != id {
                    let j = choose|j: int| 0 <= j < pre.len() && pre[j] == e;
                    Seq::lemma_filter_contains(pre, p, j);
                }
            }
        }
    }
}

} // verus!
