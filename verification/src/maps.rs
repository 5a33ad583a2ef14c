//! Association tables with exact map models.
//!
//! Each table is a vector of key-value pairs with distinct keys, whose
//! model is the finite map from key models to value models.

use vstd::prelude::*;

use crate::models::InstantiationPreset;

verus! {

/// The model of a pair vector with `u64` keys.
pub open spec fn id_assoc_map<V: View>(s: Seq<(u64, V)>) -> Map<u64, V::V>
    decreases s.len(),
{
    if s.len() == 0 {
        Map::empty()
    } else {
        id_assoc_map(s.drop_last()).insert(s.last().0, s.last().1@)
    }
}

/// Whether the keys of a pair vector are distinct.
pub open spec fn id_distinct_keys<V>(s: Seq<(u64, V)>) -> bool {
    forall|i: int, j: int| 0 <= i < j < s.len() ==> (#[trigger] s[i]).0 != (#[trigger] s[j]).0
}

proof fn lemma_id_assoc_index<V: View>(s: Seq<(u64, V)>, i: int)
    requires
        id_distinct_keys(s),
        0 <= i < s.len(),
    ensures
        id_assoc_map(s).contains_key(s[i].0),
        id_assoc_map(s)[s[i].0] == s[i].1@,
    decreases s.len(),
{
    if i < s.len() - 1 {
        assert(id_distinct_keys(s.drop_last()));
        lemma_id_assoc_index(s.drop_last(), i);
        assert(s.drop_last()[i] == s[i]);
        assert(s.last().0 != s[i].0);
    }
}

proof fn lemma_id_assoc_absent<V: View>(s: Seq<(u64, V)>, k: u64)
    requires
        forall|i: int| 0 <= i < s.len() ==> (#[trigger] s[i]).0 != k,
    ensures
        !id_assoc_map(s).contains_key(k),
    decreases s.len(),
{
    if s.len() > 0 {
        lemma_id_assoc_absent(s.drop_last(), k);
    }
}

proof fn lemma_id_assoc_update<V: View>(s: Seq<(u64, V)>, i: int, v: V)
    requires
        id_distinct_keys(s),
        0 <= i < s.len(),
    ensures
        id_assoc_map(s.update(i, (s[i].0, v))) == id_assoc_map(s).insert(s[i].0, v@),
    decreases s.len(),
{
    let k = s[i].0;
    let s2 = s.update(i, (k, v));
    if i == s.len() - 1 {
        assert(s2.drop_last() =~= s.drop_last());
        assert(id_assoc_map(s2) == id_assoc_map(s.drop_last()).insert(k, v@));
        assert(id_assoc_map(s.drop_last()).insert(k, s.last().1@).insert(k, v@) =~= id_assoc_map(
            s.drop_last(),
        ).insert(k, v@));
    } else {
        assert(id_distinct_keys(s.drop_last()));
        assert(s.drop_last()[i] == s[i]);
        lemma_id_assoc_update(s.drop_last(), i, v);
        assert(s2.drop_last() =~= s.drop_last().update(i, (k, v)));
        assert(s2.last() == s.last());
        assert(s.last().0 != k);
        assert(id_assoc_map(s.drop_last()).insert(k, v@).insert(s.last().0, s.last().1@)
            =~= id_assoc_map(s.drop_last()).insert(s.last().0, s.last().1@).insert(k, v@));
    }
}

proof fn lemma_id_assoc_remove<V: View>(s: Seq<(u64, V)>, i: int)
    requires
        id_distinct_keys(s),
        0 <= i < s.len(),
    ensures
        id_assoc_map(s.remove(i)) == id_assoc_map(s).remove(s[i].0),
    decreases s.len(),
{
    let k = s[i].0;
    if i == s.len() - 1 {
        assert(s.remove(i) =~= s.drop_last());
        assert(forall|j: int| 0 <= j < s.drop_last().len() ==> (#[trigger] s.drop_last()[j]).0 != k);
        lemma_id_assoc_absent(s.drop_last(), k);
        assert(id_assoc_map(s.drop_last()).insert(k, s.last().1@).remove(k) =~= id_assoc_map(
            s.drop_last(),
        ));
    } else {
        assert(id_distinct_keys(s.drop_last()));
        assert(s.drop_last()[i] == s[i]);
        lemma_id_assoc_remove(s.drop_last(), i);
        assert(s.remove(i).drop_last() =~= s.drop_last().remove(i));
        assert(s.remove(i).last() == s.last());
        assert(s.last().0 != k);
        assert(id_assoc_map(s.drop_last()).remove(k).insert(s.last().0, s.last().1@)
            =~= id_assoc_map(s.drop_last()).insert(s.last().0, s.last().1@).remove(k));
    }
}

/// A table keyed by item id.
pub struct IdMap<V> {
    entries: Vec<(u64, V)>,
}

impl<V: View> View for IdMap<V> {
    type V = Map<u64, V::V>;

    closed spec fn view(&self) -> Map<u64, V::V> {
        id_assoc_map(self.entries@)
    }
}

impl<V: View> IdMap<V> {
    /// Whether the table is well formed: keys are distinct.
    pub closed spec fn wf(&self) -> bool {
        id_distinct_keys(self.entries@)
    }

    /// Creates an empty table.
    pub fn new() -> (r: Self)
        ensures
            r.wf(),
            r@ == Map::<u64, V::V>::empty(),
    {
        IdMap { entries: Vec::new() }
    }

    /// Looks a key up.
    pub fn get(&self, k: u64) -> (r: Option<&V>)
        requires
            self.wf(),
        ensures
            match r {
                Option::Some(v) => self@.contains_key(k) && v@ == self@[k],
                Option::None => !self@.contains_key(k),
            },
    {
        let mut i: usize = 0;
        while i < self.entries.len()
            invariant
                i <= self.entries@.len(),
                forall|j: int| 0 <= j < i ==> (#[trigger] self.entries@[j]).0 != k,
            decreases self.entries@.len() - i,
        {
            if self.entries[i].0 == k {
                proof {
                    lemma_id_assoc_index(self.entries@, i as int);
                }
                return Option::Some(&self.entries[i].1);
            }
            i = i + 1;
        }
        proof {
            lemma_id_assoc_absent(self.entries@, k);
        }
        Option::None
    }

    /// Whether a key is present.
    pub fn contains_key(&self, k: u64) -> (r: bool)
        requires
            self.wf(),
        ensures
            r == self@.contains_key(k),
    {
        match self.get(k) {
            Option::Some(_) => true,
            Option::None => false,
        }
    }

    /// Binds a key to a value, replacing any previous binding.
    pub fn insert(&mut self, k: u64, v: V)
        requires
            old(self).wf(),
        ensures
            final(self).wf(),
            final(self)@ == old(self)@.insert(k, v@),
    {
        let mut i: usize = 0;
        while i < self.entries.len()
            invariant
                i <= self.entries@.len(),
                self == old(self),
                forall|j: int| 0 <= j < i ==> (#[trigger] self.entries@[j]).0 != k,
            decreases self.entries@.len() - i,
        {
            if self.entries[i].0 == k {
                proof {
                    lemma_id_assoc_update(self.entries@, i as int, v);
                }
                self.entries[i] = (k, v);
                proof {
                    assert(id_distinct_keys(self.entries@));
                }
                return ;
            }
            i = i + 1;
        }
        self.entries.push((k, v));
        proof {
            assert(self.entries@.drop_last() =~= old(self).entries@);
            assert(id_distinct_keys(self.entries@));
        }
    }

    /// Drops a key's binding, if any.
    pub fn remove(&mut self, k: u64)
        requires
            old(self).wf(),
        ensures
            final(self).wf(),
            final(self)@ == old(self)@.remove(k),
    {
        let mut i: usize = 0;
        while i < self.entries.len()
            invariant
                i <= self.entries@.len(),
                self == old(self),
                forall|j: int| 0 <= j < i ==> (#[trigger] self.entries@[j]).0 != k,
            decreases self.entries@.len() - i,
        {
            if self.entries[i].0 == k {
                proof {
                    lemma_id_assoc_remove(self.entries@, i as int);
                }
                self.entries.remove(i);
                proof {
                    assert(id_distinct_keys(self.entries@));
                }
                return ;
            }
            i = i + 1;
        }
        proof {
            lemma_id_assoc_absent(self.entries@, k);
            assert(self@.remove(k) =~= self@);
        }
    }
}


/// The model of a pair vector with string keys.
pub open spec fn str_assoc_map<V: View>(s: Seq<(String, V)>) -> Map<Seq<char>, V::V>
    decreases s.len(),
{
    if s.len() == 0 {
        Map::empty()
    } else {
        str_assoc_map(s.drop_last()).insert(s.last().0@, s.last().1@)
    }
}

/// Whether the string keys of a pair vector are distinct.
pub open spec fn str_distinct_keys<V>(s: Seq<(String, V)>) -> bool {
    forall|i: int, j: int| 0 <= i < j < s.len() ==> (#[trigger] s[i]).0@ != (#[trigger] s[j]).0@
}

proof fn lemma_str_assoc_index<V: View>(s: Seq<(String, V)>, i: int)
    requires
        str_distinct_keys(s),
        0 <= i < s.len(),
    ensures
        str_assoc_map(s).contains_key(s[i].0@),
        str_assoc_map(s)[s[i].0@] == s[i].1@,
    decreases s.len(),
{
    if i < s.len() - 1 {
        assert(str_distinct_keys(s.drop_last()));
        lemma_str_assoc_index(s.drop_last(), i);
        assert(s.drop_last()[i] == s[i]);
        assert(s.last().0@ != s[i].0@);
    }
}

proof fn lemma_str_assoc_absent<V: View>(s: Seq<(String, V)>, k: Seq<char>)
    requires
        forall|i: int| 0 <= i < s.len() ==> (#[trigger] s[i]).0@ != k,
    ensures
        !str_assoc_map(s).contains_key(k),
    decreases s.len(),
{
    if s.len() > 0 {
        lemma_str_assoc_absent(s.drop_last(), k);
    }
}

proof fn lemma_str_assoc_update<V: View>(s: Seq<(String, V)>, i: int, k2: String, v: V)
    requires
        str_distinct_keys(s),
        0 <= i < s.len(),
        k2@ == s[i].0@,
    ensures
        str_assoc_map(s.update(i, (k2, v))) == str_assoc_map(s).insert(s[i].0@, v@),
    decreases s.len(),
{
    let k = s[i].0@;
    let s2 = s.update(i, (k2, v));
    if i == s.len() - 1 {
        assert(s2.drop_last() =~= s.drop_last());
        assert(str_assoc_map(s2) == str_assoc_map(s.drop_last()).insert(k, v@));
        assert(str_assoc_map(s.drop_last()).insert(k, s.last().1@).insert(k, v@) =~= str_assoc_map(
            s.drop_last(),
        ).insert(k, v@));
    } else {
        assert(str_distinct_keys(s.drop_last()));
        assert(s.drop_last()[i] == s[i]);
        lemma_str_assoc_update(s.drop_last(), i, k2, v);
        assert(s2.drop_last() =~= s.drop_last().update(i, (k2, v)));
        assert(s2.last() == s.last());
        assert(s.last().0@ != k);
        assert(str_assoc_map(s.drop_last()).insert(k, v@).insert(s.last().0@, s.last().1@)
            =~= str_assoc_map(s.drop_last()).insert(s.last().0@, s.last().1@).insert(k, v@));
    }
}

proof fn lemma_str_assoc_remove<V: View>(s: Seq<(String, V)>, i: int)
    requires
        str_distinct_keys(s),
        0 <= i < s.len(),
    ensures
        str_assoc_map(s.remove(i)) == str_assoc_map(s).remove(s[i].0@),
    decreases s.len(),
{
    let k = s[i].0@;
    if i == s.len() - 1 {
        assert(s.remove(i) =~= s.drop_last());
        assert(forall|j: int|
            0 <= j < s.drop_last().len() ==> (#[trigger] s.drop_last()[j]).0@ != k);
        lemma_str_assoc_absent(s.drop_last(), k);
        assert(str_assoc_map(s.drop_last()).insert(k, s.last().1@).remove(k) =~= str_assoc_map(
            s.drop_last(),
        ));
    } else {
        assert(str_distinct_keys(s.drop_last()));
        assert(s.drop_last()[i] == s[i]);
        lemma_str_assoc_remove(s.drop_last(), i);
        assert(s.remove(i).drop_last() =~= s.drop_last().remove(i));
        assert(s.remove(i).last() == s.last());
        assert(s.last().0@ != k);
        assert(str_assoc_map(s.drop_last()).remove(k).insert(s.last().0@, s.last().1@)
            =~= str_assoc_map(s.drop_last()).insert(s.last().0@, s.last().1@).remove(k));
    }
}

/// A table keyed by address string.
pub struct StrMap<V> {
    entries: Vec<(String, V)>,
}

impl<V: View> View for StrMap<V> {
    type V = Map<Seq<char>, V::V>;

    closed spec fn view(&self) -> Map<Seq<char>, V::V> {
        str_assoc_map(self.entries@)
    }
}

impl<V: View> StrMap<V> {
    /// Whether the table is well formed: keys are distinct.
    pub closed spec fn wf(&self) -> bool {
        str_distinct_keys(self.entries@)
    }

    /// Creates an empty table.
    pub fn new() -> (r: Self)
        ensures
            r.wf(),
            r@ == Map::<Seq<char>, V::V>::empty(),
    {
        StrMap { entries: Vec::new() }
    }

    /// Looks a key up.
    pub fn get(&self, k: &String) -> (r: Option<&V>)
        requires
            self.wf(),
        ensures
            match r {
                Option::Some(v) => self@.contains_key(k@) && v@ == self@[k@],
                Option::None => !self@.contains_key(k@),
            },
    {
        let mut i: usize = 0;
        while i < self.entries.len()
            invariant
                i <= self.entries@.len(),
                forall|j: int| 0 <= j < i ==> (#[trigger] self.entries@[j]).0@ != k@,
            decreases self.entries@.len() - i,
        {
            if self.entries[i].0 == *k {
                proof {
                    lemma_str_assoc_index(self.entries@, i as int);
                }
                return Option::Some(&self.entries[i].1);
            }
            i = i + 1;
        }
        proof {
            lemma_str_assoc_absent(self.entries@, k@);
        }
        Option::None
    }

    /// Whether a key is present.
    pub fn contains_key(&self, k: &String) -> (r: bool)
        requires
            self.wf(),
        ensures
            r == self@.contains_key(k@),
    {
        match self.get(k) {
            Option::Some(_) => true,
            Option::None => false,
        }
    }

    /// Binds a key to a value, replacing any previous binding.
    pub fn insert(&mut self, k: String, v: V)
        requires
            old(self).wf(),
        ensures
            final(self).wf(),
            final(self)@ == old(self)@.insert(k@, v@),
    {
        let mut i: usize = 0;
        while i < self.entries.len()
            invariant
                i <= self.entries@.len(),
                self == old(self),
                forall|j: int| 0 <= j < i ==> (#[trigger] self.entries@[j]).0@ != k@,
            decreases self.entries@.len() - i,
        {
            if self.entries[i].0 == k {
                proof {
                    lemma_str_assoc_update(self.entries@, i as int, k, v);
                }
                self.entries[i] = (k, v);
                proof {
                    assert(str_distinct_keys(self.entries@));
                }
                return ;
            }
            i = i + 1;
        }
        self.entries.push((k, v));
        proof {
            assert(self.entries@.drop_last() =~= old(self).entries@);
            assert(str_distinct_keys(self.entries@));
        }
    }

    /// Drops a key's binding, if any.
    pub fn remove(&mut self, k: &String)
        requires
            old(self).wf(),
        ensures
            final(self).wf(),
            final(self)@ == old(self)@.remove(k@),
    {
        let mut i: usize = 0;
        while i < self.entries.len()
            invariant
                i <= self.entries@.len(),
                self == old(self),
                forall|j: int| 0 <= j < i ==> (#[trigger] self.entries@[j]).0@ != k@,
            decreases self.entries@.len() - i,
        {
            if self.entries[i].0 == *k {
                proof {
                    lemma_str_assoc_remove(self.entries@, i as int);
                }
                self.entries.remove(i);
                proof {
                    assert(str_distinct_keys(self.entries@));
                }
                return ;
            }
            i = i + 1;
        }
        proof {
            lemma_str_assoc_absent(self.entries@, k@);
            assert(self@.remove(k@) =~= self@);
        }
    }
}


/// The model of a pair vector keyed by owner address and preset name.
pub open spec fn preset_assoc_map(s: Seq<((String, String), InstantiationPreset)>) -> Map<
    (Seq<char>, Seq<char>),
    crate::models::PresetView,
>
    decreases s.len(),
{
    if s.len() == 0 {
        Map::empty()
    } else {
        preset_assoc_map(s.drop_last()).insert(
            (s.last().0.0@, s.last().0.1@),
            s.last().1@,
        )
    }
}

/// Whether the composite keys of a preset vector are distinct.
pub open spec fn preset_distinct_keys(s: Seq<((String, String), InstantiationPreset)>) -> bool {
    forall|i: int, j: int|
        0 <= i < j < s.len() ==> ((#[trigger] s[i]).0.0@, s[i].0.1@) != ((#[trigger] s[j]).0.0@,
        s[j].0.1@)
}

proof fn lemma_preset_assoc_index(s: Seq<((String, String), InstantiationPreset)>, i: int)
    requires
        preset_distinct_keys(s),
        0 <= i < s.len(),
    ensures
        preset_assoc_map(s).contains_key((s[i].0.0@, s[i].0.1@)),
        preset_assoc_map(s)[(s[i].0.0@, s[i].0.1@)] == s[i].1@,
    decreases s.len(),
{
    if i < s.len() - 1 {
        assert(preset_distinct_keys(s.drop_last()));
        lemma_preset_assoc_index(s.drop_last(), i);
        assert(s.drop_last()[i] == s[i]);
        assert((s.last().0.0@, s.last().0.1@) != (s[i].0.0@, s[i].0.1@));
    }
}

proof fn lemma_preset_assoc_absent(
    s: Seq<((String, String), InstantiationPreset)>,
    k: (Seq<char>, Seq<char>),
)
    requires
        forall|i: int| 0 <= i < s.len() ==> ((#[trigger] s[i]).0.0@, s[i].0.1@) != k,
    ensures
        !preset_assoc_map(s).contains_key(k),
    decreases s.len(),
{
    if s.len() > 0 {
        lemma_preset_assoc_absent(s.drop_last(), k);
    }
}

proof fn lemma_preset_assoc_contained(
    s: Seq<((String, String), InstantiationPreset)>,
    k: (Seq<char>, Seq<char>),
)
    requires
        preset_assoc_map(s).contains_key(k),
    ensures
        exists|i: int| 0 <= i < s.len() && ((#[trigger] s[i]).0.0@, s[i].0.1@) == k,
    decreases s.len(),
{
    if s.len() > 0 {
        if (s.last().0.0@, s.last().0.1@) == k {
            assert(((s[s.len() - 1]).0.0@, s[s.len() - 1].0.1@) == k);
        } else {
            lemma_preset_assoc_contained(s.drop_last(), k);
            let i = choose|i: int|
                0 <= i < s.drop_last().len() && ((#[trigger] s.drop_last()[i]).0.0@,
                s.drop_last()[i].0.1@) == k;
            assert(((s[i]).0.0@, s[i].0.1@) == k);
        }
    }
}

proof fn lemma_preset_assoc_remove(s: Seq<((String, String), InstantiationPreset)>, i: int)
    requires
        preset_distinct_keys(s),
        0 <= i < s.len(),
    ensures
        preset_assoc_map(s.remove(i)) == preset_assoc_map(s).remove((s[i].0.0@, s[i].0.1@)),
    decreases s.len(),
{
    let k = (s[i].0.0@, s[i].0.1@);
    if i == s.len() - 1 {
        assert(s.remove(i) =~= s.drop_last());
        assert(forall|j: int|
            0 <= j < s.drop_last().len() ==> ((#[trigger] s.drop_last()[j]).0.0@,
            s.drop_last()[j].0.1@) != k);
        lemma_preset_assoc_absent(s.drop_last(), k);
        assert(preset_assoc_map(s.drop_last()).insert(k, s.last().1@).remove(k)
            =~= preset_assoc_map(s.drop_last()));
    } else {
        assert(preset_distinct_keys(s.drop_last()));
        assert(s.drop_last()[i] == s[i]);
        lemma_preset_assoc_remove(s.drop_last(), i);
        assert(s.remove(i).drop_last() =~= s.drop_last().remove(i));
        assert(s.remove(i).last() == s.last());
        let lk = (s.last().0.0@, s.last().0.1@);
        assert(lk != k);
        assert(preset_assoc_map(s.drop_last()).remove(k).insert(lk, s.last().1@)
            =~= preset_assoc_map(s.drop_last()).insert(lk, s.last().1@).remove(k));
    }
}

/// Duplicates a vector of slot values.
pub fn clone_slot_values(v: &Vec<crate::models::IndexSlotValue>) -> (r: Vec<
    crate::models::IndexSlotValue,
>)
    ensures
        crate::models::slot_values_view(r@) == crate::models::slot_values_view(v@),
{
    let mut r: Vec<crate::models::IndexSlotValue> = Vec::new();
    let mut i: usize = 0;
    while i < v.len()
        invariant
            i <= v@.len(),
            r@.len() == i,
            forall|j: int| 0 <= j < i ==> (#[trigger] r@[j])@ == v@[j]@,
        decreases v@.len() - i,
    {
        r.push(v[i].clone());
        i = i + 1;
    }
    proof {
        assert(crate::models::slot_values_view(r@) =~= crate::models::slot_values_view(v@));
    }
    r
}

/// Duplicates a vector of strings.
pub fn clone_strings(v: &Vec<String>) -> (r: Vec<String>)
    ensures
        crate::models::strings_view(r@) == crate::models::strings_view(v@),
{
    let mut r: Vec<String> = Vec::new();
    let mut i: usize = 0;
    while i < v.len()
        invariant
            i <= v@.len(),
            r@.len() == i,
            forall|j: int| 0 <= j < i ==> (#[trigger] r@[j])@ == v@[j]@,
        decreases v@.len() - i,
    {
        r.push(v[i].clone());
        i = i + 1;
    }
    proof {
        assert(crate::models::strings_view(r@) =~= crate::models::strings_view(v@));
    }
    r
}

impl Clone for InstantiationPreset {
    fn clone(&self) -> (r: Self)
        ensures
            r@ == self@,
    {
        let r = InstantiationPreset {
            code_id: self.code_id,
            msg: self.msg.clone(),
            admin: match &self.admin {
                Option::None => Option::None,
                Option::Some(s) => Option::Some(s.clone()),
            },
            indices: match &self.indices {
                Option::None => Option::None,
                Option::Some(v) => Option::Some(clone_slot_values(v)),
            },
            label: match &self.label {
                Option::None => Option::None,
                Option::Some(s) => Option::Some(s.clone()),
            },
            tags: match &self.tags {
                Option::None => Option::None,
                Option::Some(v) => Option::Some(clone_strings(v)),
            },
        };
        proof {
            assert(r.msg@ =~= self.msg@);
        }
        r
    }
}

/// The stored instantiation presets, keyed by owner address and preset
/// name.
pub struct PresetMap {
    entries: Vec<((String, String), InstantiationPreset)>,
}

impl View for PresetMap {
    type V = Map<(Seq<char>, Seq<char>), crate::models::PresetView>;

    closed spec fn view(&self) -> Map<(Seq<char>, Seq<char>), crate::models::PresetView> {
        preset_assoc_map(self.entries@)
    }
}

impl PresetMap {
    /// Whether the table is well formed: keys are distinct.
    pub closed spec fn wf(&self) -> bool {
        preset_distinct_keys(self.entries@)
    }

    /// Creates an empty table.
    pub fn new() -> (r: Self)
        ensures
            r.wf(),
            r@ == Map::<(Seq<char>, Seq<char>), crate::models::PresetView>::empty(),
    {
        PresetMap { entries: Vec::new() }
    }

    /// Looks an owner's preset up by name.
    pub fn get(&self, owner: &String, name: &String) -> (r: Option<&InstantiationPreset>)
        requires
            self.wf(),
        ensures
            match r {
                Option::Some(v) => self@.contains_key((owner@, name@)) && v@ == self@[
                    (owner@, name@)
                ],
                Option::None => !self@.contains_key((owner@, name@)),
            },
    {
        let mut i: usize = 0;
        while i < self.entries.len()
            invariant
                i <= self.entries@.len(),
                forall|j: int|
                    0 <= j < i ==> ((#[trigger] self.entries@[j]).0.0@, self.entries@[j].0.1@) != (
                    owner@, name@),
            decreases self.entries@.len() - i,
        {
            if self.entries[i].0.0 == *owner && self.entries[i].0.1 == *name {
                proof {
                    lemma_preset_assoc_index(self.entries@, i as int);
                }
                return Option::Some(&self.entries[i].1);
            }
            i = i + 1;
        }
        proof {
            lemma_preset_assoc_absent(self.entries@, (owner@, name@));
        }
        Option::None
    }

    /// Whether an owner has a preset of this name.
    pub fn contains_key(&self, owner: &String, name: &String) -> (r: bool)
        requires
            self.wf(),
        ensures
            r == self@.contains_key((owner@, name@)),
    {
        match self.get(owner, name) {
            Option::Some(_) => true,
            Option::None => false,
        }
    }

    /// Stores a preset under a name not yet taken by this owner.
    pub fn insert_new(&mut self, owner: String, name: String, v: InstantiationPreset)
        requires
            old(self).wf(),
            !old(self)@.contains_key((owner@, name@)),
        ensures
            final(self).wf(),
            final(self)@ == old(self)@.insert((owner@, name@), v@),
    {
        proof {
            if exists|i: int|
                0 <= i < self.entries@.len() && ((#[trigger] self.entries@[i]).0.0@,
                self.entries@[i].0.1@) == (owner@, name@) {
                let i = choose|i: int|
                    0 <= i < self.entries@.len() && ((#[trigger] self.entries@[i]).0.0@,
                    self.entries@[i].0.1@) == (owner@, name@);
                lemma_preset_assoc_index(self.entries@, i);
            }
        }
        self.entries.push(((owner, name), v));
        proof {
            assert(self.entries@.drop_last() =~= old(self).entries@);
            assert(preset_distinct_keys(self.entries@));
        }
    }

    /// Drops an owner's preset, if any.
    pub fn remove(&mut self, owner: &String, name: &String)
        requires
            old(self).wf(),
        ensures
            final(self).wf(),
            final(self)@ == old(self)@.remove((owner@, name@)),
    {
        let mut i: usize = 0;
        while i < self.entries.len()
            invariant
                i <= self.entries@.len(),
                self == old(self),
                forall|j: int|
                    0 <= j < i ==> ((#[trigger] self.entries@[j]).0.0@, self.entries@[j].0.1@) != (
                    owner@, name@),
            decreases self.entries@.len() - i,
        {
            if self.entries[i].0.0 == *owner && self.entries[i].0.1 == *name {
                proof {
                    lemma_preset_assoc_remove(self.entries@, i as int);
                }
                self.entries.remove(i);
                proof {
                    assert(preset_distinct_keys(self.entries@));
                }
                return ;
            }
            i = i + 1;
        }
        proof {
            lemma_preset_assoc_absent(self.entries@, (owner@, name@));
            assert(self@.remove((owner@, name@)) =~= self@);
        }
    }

    /// Whether the preset map holds `pv` under some name of `owner`.
    pub open spec fn listed(
        m: Map<(Seq<char>, Seq<char>), crate::models::PresetView>,
        owner: Seq<char>,
        pv: crate::models::PresetView,
    ) -> bool {
        exists|n: Seq<char>| #![auto] m.contains_key((owner, n)) && m[(owner, n)] == pv
    }

    /// Whether the collected vector holds a preset modelling `pv`.
    pub open spec fn includes(r: Seq<InstantiationPreset>, pv: crate::models::PresetView) -> bool {
        exists|x: int| 0 <= x < r.len() && (#[trigger] r[x])@ == pv
    }

    /// Whether some entry below `upto` belongs to `owner` and models `pv`.
    spec fn entry_models(
        entries: Seq<((String, String), InstantiationPreset)>,
        upto: int,
        owner: Seq<char>,
        pv: crate::models::PresetView,
    ) -> bool {
        exists|j: int|
            0 <= j < upto && (#[trigger] entries[j]).0.0@ == owner && entries[j].1@ == pv
    }

    /// Whether the collected vector holds a preset modelling `pv`.
    spec fn collected(r: Seq<InstantiationPreset>, pv: crate::models::PresetView) -> bool {
        exists|x: int| 0 <= x < r.len() && (#[trigger] r[x])@ == pv
    }

    /// Lists an owner's presets: every stored preset of this owner
    /// appears, and nothing else.
    #[verifier::rlimit(50)]
    pub fn presets_of(&self, owner: &String) -> (r: Vec<InstantiationPreset>)
        requires
            self.wf(),
        ensures
            forall|i: int| 0 <= i < r@.len() ==> Self::listed(self@, owner@, (#[trigger] r@[i])@),
            forall|n: Seq<char>|
                self@.contains_key((owner@, n)) ==> Self::includes(r@, self@[(owner@, n)]),
    {
        let mut r: Vec<InstantiationPreset> = Vec::new();
        let mut i: usize = 0;
        while i < self.entries.len()
            invariant
                i <= self.entries@.len(),
                forall|x: int|
                    0 <= x < r@.len() ==> Self::entry_models(
                        self.entries@,
                        i as int,
                        owner@,
                        (#[trigger] r@[x])@,
                    ),
                forall|j: int|
                    0 <= j < i && (#[trigger] self.entries@[j]).0.0@ == owner@ ==> Self::collected(
                        r@,
                        self.entries@[j].1@,
                    ),
            decreases self.entries@.len() - i,
        {
            let ghost pre_r = r@;
            let matched = self.entries[i].0.0 == *owner;
            if matched {
                r.push(self.entries[i].1.clone());
            }
            proof {
                assert forall|j: int|
                    0 <= j < i + 1 && (#[trigger] self.entries@[j]).0.0@
                        == owner@ implies Self::collected(r@, self.entries@[j].1@) by {
                    if j < i {
                        assert(Self::collected(pre_r, self.entries@[j].1@));
                        let x = choose|x: int|
                            0 <= x < pre_r.len() && (#[trigger] pre_r[x])@ == self.entries@[j].1@;
                        assert(r@[x]@ == self.entries@[j].1@);
                        assert(Self::collected(r@, self.entries@[j].1@));
                    } else {
                        assert(r@[r@.len() - 1]@ == self.entries@[i as int].1@);
                        assert(Self::collected(r@, self.entries@[j].1@));
                    }
                }
                assert forall|x: int| 0 <= x < r@.len() implies Self::entry_models(
                    self.entries@,
                    i + 1,
                    owner@,
                    (#[trigger] r@[x])@,
                ) by {
                    if x < pre_r.len() {
                        assert(Self::entry_models(self.entries@, i as int, owner@, pre_r[x]@));
                        let j = choose|j: int|
                            0 <= j < i && (#[trigger] self.entries@[j]).0.0@ == owner@
                                && self.entries@[j].1@ == pre_r[x]@;
                        assert(r@[x] == pre_r[x]);
                        assert(Self::entry_models(self.entries@, i + 1, owner@, r@[x]@));
                    } else {
                        assert((self.entries@[i as int]).0.0@ == owner@ && self.entries@[
                            i as int
                        ].1@ == r@[x]@);
                        assert(Self::entry_models(self.entries@, i + 1, owner@, r@[x]@));
                    }
                }
            }
            i = i + 1;
        }
        proof {
            assert forall|x: int| 0 <= x < r@.len() implies Self::listed(
                self@,
                owner@,
                (#[trigger] r@[x])@,
            ) by {
                assert(Self::entry_models(self.entries@, self.entries@.len() as int, owner@, r@[x]@));
                let j = choose|j: int|
                    0 <= j < self.entries@.len() && (#[trigger] self.entries@[j]).0.0@ == owner@
                        && self.entries@[j].1@ == r@[x]@;
                lemma_preset_assoc_index(self.entries@, j);
                assert(self@.contains_key((owner@, self.entries@[j].0.1@)) && self@[
                    (owner@, self.entries@[j].0.1@)
                ] == r@[x]@);
            }
            assert forall|n: Seq<char>| self@.contains_key((owner@, n)) implies Self::includes(
                r@,
                self@[(owner@, n)],
            ) by {
                lemma_preset_assoc_contained(self.entries@, (owner@, n));
                let j = choose|j: int|
                    0 <= j < self.entries@.len() && ((#[trigger] self.entries@[j]).0.0@,
                    self.entries@[j].0.1@) == (owner@, n);
                lemma_preset_assoc_index(self.entries@, j);
                assert(self.entries@[j].0.0@ == owner@);
                assert(Self::collected(r@, self.entries@[j].1@));
                let x = choose|x: int| 0 <= x < r@.len() && (#[trigger] r@[x])@ == self.entries@[j].1@;
                assert(r@[x]@ == self@[(owner@, n)]);
            }
        }
        r
    }
}

/// The allow list of code ids, kept sorted ascending without
/// duplicates.
pub struct CodeIdSet {
    items: Vec<u64>,
}

impl View for CodeIdSet {
    type V = Seq<u64>;

    closed spec fn view(&self) -> Seq<u64> {
        self.items@
    }
}

impl CodeIdSet {
    /// Whether the list is well formed: strictly ascending.
    pub open spec fn wf(&self) -> bool {
        forall|i: int, j: int| 0 <= i < j < self@.len() ==> self@[i] < self@[j]
    }

    /// Creates an empty allow list.
    pub fn new() -> (r: Self)
        ensures
            r.wf(),
            r@ == Seq::<u64>::empty(),
    {
        let r = CodeIdSet { items: Vec::new() };
        r
    }

    /// Empties the allow list.
    pub fn clear(&mut self)
        ensures
            final(self).wf(),
            final(self)@ == Seq::<u64>::empty(),
    {
        self.items = Vec::new();
    }

    /// Whether a code id is allowed.
    pub fn contains(&self, v: u64) -> (r: bool)
        ensures
            r == self@.contains(v),
    {
        let mut i: usize = 0;
        while i < self.items.len()
            invariant
                i <= self@.len(),
                forall|j: int| 0 <= j < i ==> self@[j] != v,
            decreases self@.len() - i,
        {
            if self.items[i] == v {
                assert(self@[i as int] == v);
                return true;
            }
            i = i + 1;
        }
        proof {
            if self@.contains(v) {
                let j = choose|j: int| 0 <= j < self@.len() && self@[j] == v;
                assert(self@[j] != v);
            }
        }
        false
    }

    /// Allows a code id; allowing one twice changes nothing.
    pub fn insert(&mut self, v: u64)
        requires
            old(self).wf(),
        ensures
            final(self).wf(),
            forall|x: u64| final(self)@.contains(x) <==> (old(self)@.contains(x) || x == v),
    {
        let mut i: usize = 0;
        while i < self.items.len()
            invariant
                i <= self@.len(),
                self == old(self),
                forall|j: int| 0 <= j < i ==> self@[j] < v,
            decreases self@.len() - i,
        {
            if self.items[i] == v {
                proof {
                    assert(self@[i as int] == v);
                    assert(self@.contains(v));
                    assert forall|x: u64|
                        self@.contains(x) <==> (old(self)@.contains(x) || x == v) by {
                        if x == v {
                            assert(self@.contains(v));
                        }
                        assert(self@ == old(self)@);
                    }
                }
                return ;
            }
            if self.items[i] > v {
                let ghost pre = self@;
                self.items.insert(i, v);
                proof {
                    assert(forall|j: int|
                        0 <= j < pre.len() + 1 ==> self@[j] == if j < i {
                            pre[j]
                        } else if j == i {
                            v
                        } else {
                            pre[j - 1]
                        });
                    assert forall|x: u64| self@.contains(x) <==> (old(self)@.contains(x) || x
                        == v) by {
                        if self@.contains(x) {
                            let j = choose|j: int| 0 <= j < self@.len() && self@[j] == x;
                            if j < i {
                                assert(pre[j] == x);
                                assert(pre.contains(x));
                            } else if j > i {
                                assert(pre[j - 1] == x);
                                assert(pre.contains(x));
                            }
                        }
                        if old(self)@.contains(x) {
                            let j = choose|j: int| 0 <= j < pre.len() && pre[j] == x;
                            if j < i {
                                assert(self@[j] == x);
                            } else {
                                assert(self@[j + 1] == x);
                            }
                            assert(self@.contains(x));
                        }
                        if x == v {
                            assert(self@[i as int] == x);
                            assert(self@.contains(x));
                        }
                    }
                }
                return ;
            }
            i = i + 1;
        }
        let ghost pre = self@;
        self.items.push(v);
        proof {
            assert forall|x: u64| self@.contains(x) <==> (old(self)@.contains(x) || x == v) by {
                if self@.contains(x) {
                    let j = choose|j: int| 0 <= j < self@.len() && self@[j] == x;
                    if j < pre.len() {
                        assert(pre[j] == x);
                        assert(pre.contains(x));
                    } else {
                        assert(x == v);
                    }
                }
                if pre.contains(x) {
                    let j = choose|j: int| 0 <= j < pre.len() && pre[j] == x;
                    assert(self@[j] == x);
                    assert(self@.contains(x));
                }
                if x == v {
                    assert(self@[self@.len() - 1] == x);
                    assert(self@.contains(x));
                }
            }
        }
    }

    /// The allowed code ids, ascending.
    pub fn as_vec(&self) -> (r: Vec<u64>)
        ensures
            r@ == self@,
    {
        self.items.clone()
    }

    /// Whether any code id is allowed.
    pub fn is_empty(&self) -> (r: bool)
        ensures
            r == (self@.len() == 0),
    {
        self.items.len() == 0
    }
}

} // verus!
