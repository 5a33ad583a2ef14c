//! Client-side helpers: a handle on a registry contract and a builder
//! that collects the slot values, tags and relationships of one update
//! call.
//!
//! Free-text payloads travel base64-encoded, as the registry's wire
//! format expects; the host shell turns a finished builder into the
//! actual message.

use vstd::prelude::*;
use vstd::string::StringSliceAdditionalSpecFns;

use crate::models::{AddressTag, IndexSlotValue, Slot};

verus! {

/// The base64 rendering of a byte string, as `cosmwasm_std`'s encoder
/// produces it: the standard alphabet, padded.
pub uninterp spec fn base64_of(bytes: Seq<u8>) -> Seq<char>;

/// Relies on `cosmwasm_std::Binary::to_base64`: standard base64 with
/// padding, a function of the bytes alone, four output characters for
/// every started group of three input bytes.
#[verifier::external_body]
fn base64_encode(s: &str) -> (r: String)
    ensures
        r@ == base64_of(s.spec_bytes()),
        r@.len() == 4 * ((s.spec_bytes().len() + 2) / 3),
{
    cosmwasm_std::Binary::from(s.as_bytes()).to_base64()
}

/// A handle on a registry contract.
#[derive(Debug)]
pub struct Repository {
    pub contract_addr: String,
}

impl Repository {
    /// Wraps a registry contract address.
    pub fn new(repo_contract_addr: &String) -> (r: Self)
        ensures
            r.contract_addr@ == repo_contract_addr@,
    {
        Repository { contract_addr: repo_contract_addr.clone() }
    }

    /// Starts collecting one update call against this registry.
    pub fn update(&self) -> (r: UpdateBuilder)
        ensures
            r.repo_contract_addr@ == self.contract_addr@,
            r.values@.len() == 0,
            r.tags_to_add@.len() == 0,
            r.tags_to_remove@.len() == 0,
            r.rels_to_add@.len() == 0,
            r.rels_to_remove@.len() == 0,
    {
        UpdateBuilder::new(&self.contract_addr)
    }
}

/// Collects the slot values, tags and relationships of one update
/// call.  Tags and relationship names are stored base64-encoded and
/// kept free of duplicates.
#[derive(Debug)]
pub struct UpdateBuilder {
    pub repo_contract_addr: String,
    pub values: Vec<IndexSlotValue>,
    pub tags_to_add: Vec<String>,
    pub tags_to_remove: Vec<String>,
    pub rels_to_add: Vec<AddressTag>,
    pub rels_to_remove: Vec<AddressTag>,
}

/// Whether a string vector holds a string with this model.
pub open spec fn holds_string(v: Seq<String>, s: Seq<char>) -> bool {
    exists|i: int| 0 <= i < v.len() && (#[trigger] v[i])@ == s
}

/// Whether an address-tag vector holds a pair with this model.
pub open spec fn holds_pair(v: Seq<AddressTag>, p: (Seq<char>, Seq<char>)) -> bool {
    exists|i: int| 0 <= i < v.len() && (#[trigger] v[i])@ == p
}

/// Appends a string unless an equal one is already there.
fn push_unique_string(v: &mut Vec<String>, s: String)
    ensures
        forall|x: Seq<char>| holds_string(final(v)@, x) <==> (holds_string(old(v)@, x) || x == s@),
{
    let mut i: usize = 0;
    while i < v.len()
        invariant
            i <= v@.len(),
            v == old(v),
            forall|j: int| 0 <= j < i ==> (#[trigger] v@[j])@ != s@,
        decreases v@.len() - i,
    {
        if v[i] == s {
            proof {
                assert(v@[i as int]@ == s@);
                assert forall|x: Seq<char>| holds_string(v@, x) <==> (holds_string(old(v)@, x) || x
                    == s@) by {
                    if x == s@ {
                        assert(holds_string(v@, x));
                    }
                }
            }
            return ;
        }
        i = i + 1;
    }
    let ghost pre = v@;
    v.push(s);
    proof {
        assert(pre == old(v)@);
        assert forall|x: Seq<char>| holds_string(v@, x) <==> (holds_string(old(v)@, x) || x
            == s@) by {
            if holds_string(v@, x) {
                let j = choose|j: int| 0 <= j < v@.len() && (#[trigger] v@[j])@ == x;
                if j < pre.len() {
                    assert(pre[j]@ == x);
                    assert(holds_string(pre, x));
                } else {
                    assert(j == v@.len() - 1);
                    assert(v@[j]@ == s@);
                }
            }
            if holds_string(pre, x) {
                let j = choose|j: int| 0 <= j < pre.len() && (#[trigger] pre[j])@ == x;
                assert(v@[j]@ == x);
                assert(holds_string(v@, x));
            }
            if x == s@ {
                assert(v@[v@.len() - 1]@ == x);
                assert(holds_string(v@, x));
            }
        }
    }
}

/// Appends an address tag unless an equal one is already there.
fn push_unique_pair(v: &mut Vec<AddressTag>, p: AddressTag)
    ensures
        forall|x: (Seq<char>, Seq<char>)|
            holds_pair(final(v)@, x) <==> (holds_pair(old(v)@, x) || x == p@),
{
    let mut i: usize = 0;
    while i < v.len()
        invariant
            i <= v@.len(),
            v == old(v),
            forall|j: int| 0 <= j < i ==> (#[trigger] v@[j])@ != p@,
        decreases v@.len() - i,
    {
        if v[i].address == p.address && v[i].tag == p.tag {
            proof {
                assert(v@[i as int]@ == p@);
                assert forall|x: (Seq<char>, Seq<char>)| holds_pair(v@, x) <==> (holds_pair(
                    old(v)@,
                    x,
                ) || x == p@) by {
                    if x == p@ {
                        assert(holds_pair(v@, x));
                    }
                }
            }
            return ;
        }
        i = i + 1;
    }
    let ghost pre = v@;
    v.push(p);
    proof {
        assert(pre == old(v)@);
        assert forall|x: (Seq<char>, Seq<char>)| holds_pair(v@, x) <==> (holds_pair(old(v)@, x)
            || x == p@) by {
            if holds_pair(v@, x) {
                let j = choose|j: int| 0 <= j < v@.len() && (#[trigger] v@[j])@ == x;
                if j < pre.len() {
                    assert(pre[j]@ == x);
                    assert(holds_pair(pre, x));
                } else {
                    assert(j == v@.len() - 1);
                    assert(v@[j]@ == p@);
                }
            }
            if holds_pair(pre, x) {
                let j = choose|j: int| 0 <= j < pre.len() && (#[trigger] pre[j])@ == x;
                assert(v@[j]@ == x);
                assert(holds_pair(v@, x));
            }
            if x == v@[v@.len() - 1]@ {
                assert(holds_pair(v@, x));
            }
        }
    }
}

impl UpdateBuilder {
    /// Starts an empty update against a registry address.
    pub fn new(repo_contract_addr: &String) -> (r: Self)
        ensures
            r.repo_contract_addr@ == repo_contract_addr@,
            r.values@.len() == 0,
            r.tags_to_add@.len() == 0,
            r.tags_to_remove@.len() == 0,
            r.rels_to_add@.len() == 0,
            r.rels_to_remove@.len() == 0,
    {
        UpdateBuilder {
            repo_contract_addr: repo_contract_addr.clone(),
            values: Vec::new(),
            tags_to_add: Vec::new(),
            tags_to_remove: Vec::new(),
            rels_to_add: Vec::new(),
            rels_to_remove: Vec::new(),
        }
    }

    /// Queues a 64-bit integer slot value.
    pub fn set_u64(self, slot: Slot, value: u64) -> (r: Self)
        ensures
            crate::models::slot_values_view(r.values@) == crate::models::slot_values_view(
                self.values@,
            ).push(crate::models::SlotValueView::Uint64 { slot, value }),
            r == (UpdateBuilder { values: r.values, ..self }),
    {
        let mut b = self;
        b.values.push(IndexSlotValue::Uint64 { slot, value });
        proof {
            assert(crate::models::slot_values_view(b.values@) =~= crate::models::slot_values_view(
                self.values@,
            ).push(crate::models::SlotValueView::Uint64 { slot, value }));
        }
        b
    }

    /// Queues a 128-bit integer slot value.
    pub fn set_u128(self, slot: Slot, value: u128) -> (r: Self)
        ensures
            crate::models::slot_values_view(r.values@) == crate::models::slot_values_view(
                self.values@,
            ).push(crate::models::SlotValueView::Uint128 { slot, value }),
            r == (UpdateBuilder { values: r.values, ..self }),
    {
        let mut b = self;
        b.values.push(IndexSlotValue::Uint128 { slot, value });
        proof {
            assert(crate::models::slot_values_view(b.values@) =~= crate::models::slot_values_view(
                self.values@,
            ).push(crate::models::SlotValueView::Uint128 { slot, value }));
        }
        b
    }

    /// Queues a text slot value, base64-encoded for the wire.
    pub fn set_string(self, slot: Slot, value: &str) -> (r: Self)
        ensures
            crate::models::slot_values_view(r.values@) == crate::models::slot_values_view(
                self.values@,
            ).push(
                crate::models::SlotValueView::Text {
                    slot,
                    value: base64_of(value.spec_bytes()),
                },
            ),
            r == (UpdateBuilder { values: r.values, ..self }),
    {
        let mut b = self;
        let encoded = base64_encode(value);
        b.values.push(IndexSlotValue::Text { slot, value: encoded });
        proof {
            assert(crate::models::slot_values_view(b.values@) =~= crate::models::slot_values_view(
                self.values@,
            ).push(
                crate::models::SlotValueView::Text {
                    slot,
                    value: base64_of(value.spec_bytes()),
                },
            ));
        }
        b
    }

    /// Queues a boolean slot value.
    pub fn set_boolean(self, slot: Slot, value: bool) -> (r: Self)
        ensures
            crate::models::slot_values_view(r.values@) == crate::models::slot_values_view(
                self.values@,
            ).push(crate::models::SlotValueView::Boolean { slot, value }),
            r == (UpdateBuilder { values: r.values, ..self }),
    {
        let mut b = self;
        b.values.push(IndexSlotValue::Boolean { slot, value });
        proof {
            assert(crate::models::slot_values_view(b.values@) =~= crate::models::slot_values_view(
                self.values@,
            ).push(crate::models::SlotValueView::Boolean { slot, value }));
        }
        b
    }

    /// Queues a timestamp slot value, in nanoseconds.
    pub fn set_timestamp(self, slot: Slot, value: u64) -> (r: Self)
        ensures
            crate::models::slot_values_view(r.values@) == crate::models::slot_values_view(
                self.values@,
            ).push(crate::models::SlotValueView::Timestamp { slot, value }),
            r == (UpdateBuilder { values: r.values, ..self }),
    {
        let mut b = self;
        b.values.push(IndexSlotValue::Timestamp { slot, value });
        proof {
            assert(crate::models::slot_values_view(b.values@) =~= crate::models::slot_values_view(
                self.values@,
            ).push(crate::models::SlotValueView::Timestamp { slot, value }));
        }
        b
    }

    /// Queues a tag to add, base64-encoded, skipping duplicates.
    pub fn add_tag(self, tag: &str) -> (r: Self)
        ensures
            forall|x: Seq<char>|
                holds_string(r.tags_to_add@, x) <==> (holds_string(self.tags_to_add@, x) || x
                    == base64_of(tag.spec_bytes())),
            r == (UpdateBuilder { tags_to_add: r.tags_to_add, ..self }),
    {
        let mut b = self;
        let encoded = base64_encode(tag);
        push_unique_string(&mut b.tags_to_add, encoded);
        b
    }

    /// Queues several tags to add.
    pub fn add_tags(self, tags: Vec<&str>) -> (r: Self)
        ensures
            r == (UpdateBuilder { tags_to_add: r.tags_to_add, ..self }),
            forall|j: int|
                0 <= j < tags@.len() ==> holds_string(
                    r.tags_to_add@,
                    base64_of((#[trigger] tags@[j]).spec_bytes()),
                ),
            forall|x: Seq<char>|
                holds_string(r.tags_to_add@, x) ==> (holds_string(self.tags_to_add@, x) || exists|
                    j: int,
                |
                    0 <= j < tags@.len() && x == base64_of((#[trigger] tags@[j]).spec_bytes())),
    {
        let mut b = self;
        let mut i: usize = 0;
        while i < tags.len()
            invariant
                i <= tags@.len(),
                b == (UpdateBuilder { tags_to_add: b.tags_to_add, ..self }),
                forall|j: int|
                    0 <= j < i ==> holds_string(
                        b.tags_to_add@,
                        base64_of((#[trigger] tags@[j]).spec_bytes()),
                    ),
                forall|x: Seq<char>|
                    holds_string(b.tags_to_add@, x) ==> (holds_string(self.tags_to_add@, x)
                        || exists|j: int|
                        0 <= j < i && x == base64_of((#[trigger] tags@[j]).spec_bytes())),
            decreases tags@.len() - i,
        {
            let encoded = base64_encode(tags[i]);
            let ghost pre = b.tags_to_add@;
            push_unique_string(&mut b.tags_to_add, encoded);
            proof {
                assert forall|x: Seq<char>| holds_string(b.tags_to_add@, x) implies (holds_string(
                    self.tags_to_add@,
                    x,
                ) || exists|j: int|
                    0 <= j < i + 1 && x == base64_of((#[trigger] tags@[j]).spec_bytes())) by {
                    if x == base64_of(tags@[i as int].spec_bytes()) {
                        assert(0 <= i < i + 1 && x == base64_of(tags@[i as int].spec_bytes()));
                    } else {
                        assert(holds_string(pre, x));
                    }
                }
                assert forall|j: int| 0 <= j < i + 1 implies holds_string(
                    b.tags_to_add@,
                    base64_of((#[trigger] tags@[j]).spec_bytes()),
                ) by {
                    if j < i {
                        assert(holds_string(pre, base64_of(tags@[j].spec_bytes())));
                    }
                }
            }
            i = i + 1;
        }
        b
    }

    /// Queues several tags to remove.
    pub fn remove_tags(self, tags: Vec<&str>) -> (r: Self)
        ensures
            r == (UpdateBuilder { tags_to_remove: r.tags_to_remove, ..self }),
            forall|j: int|
                0 <= j < tags@.len() ==> holds_string(
                    r.tags_to_remove@,
                    base64_of((#[trigger] tags@[j]).spec_bytes()),
                ),
            forall|x: Seq<char>|
                holds_string(r.tags_to_remove@, x) ==> (holds_string(self.tags_to_remove@, x)
                    || exists|j: int|
                    0 <= j < tags@.len() && x == base64_of((#[trigger] tags@[j]).spec_bytes())),
    {
        let mut b = self;
        let mut i: usize = 0;
        while i < tags.len()
            invariant
                i <= tags@.len(),
                b == (UpdateBuilder { tags_to_remove: b.tags_to_remove, ..self }),
                forall|j: int|
                    0 <= j < i ==> holds_string(
                        b.tags_to_remove@,
                        base64_of((#[trigger] tags@[j]).spec_bytes()),
                    ),
                forall|x: Seq<char>|
                    holds_string(b.tags_to_remove@, x) ==> (holds_string(self.tags_to_remove@, x)
                        || exists|j: int|
                        0 <= j < i && x == base64_of((#[trigger] tags@[j]).spec_bytes())),
            decreases tags@.len() - i,
        {
            let encoded = base64_encode(tags[i]);
            let ghost pre = b.tags_to_remove@;
            push_unique_string(&mut b.tags_to_remove, encoded);
            proof {
                assert forall|x: Seq<char>| holds_string(b.tags_to_remove@, x) implies (
                holds_string(self.tags_to_remove@, x) || exists|j: int|
                    0 <= j < i + 1 && x == base64_of((#[trigger] tags@[j]).spec_bytes())) by {
                    if x == base64_of(tags@[i as int].spec_bytes()) {
                        assert(0 <= i < i + 1 && x == base64_of(tags@[i as int].spec_bytes()));
                    } else {
                        assert(holds_string(pre, x));
                    }
                }
                assert forall|j: int| 0 <= j < i + 1 implies holds_string(
                    b.tags_to_remove@,
                    base64_of((#[trigger] tags@[j]).spec_bytes()),
                ) by {
                    if j < i {
                        assert(holds_string(pre, base64_of(tags@[j].spec_bytes())));
                    }
                }
            }
            i = i + 1;
        }
        b
    }

    /// Queues a tag to remove, base64-encoded, skipping duplicates.
    pub fn remove_tag(self, tag: &str) -> (r: Self)
        ensures
            forall|x: Seq<char>|
                holds_string(r.tags_to_remove@, x) <==> (holds_string(self.tags_to_remove@, x) || x
                    == base64_of(tag.spec_bytes())),
            r == (UpdateBuilder { tags_to_remove: r.tags_to_remove, ..self }),
    {
        let mut b = self;
        let encoded = base64_encode(tag);
        push_unique_string(&mut b.tags_to_remove, encoded);
        b
    }

    /// Queues one tag to drop and another to take its place.
    pub fn change_tag(self, old_tag: &str, new_tag: &str) -> (r: Self)
        ensures
            forall|x: Seq<char>|
                holds_string(r.tags_to_remove@, x) <==> (holds_string(self.tags_to_remove@, x) || x
                    == base64_of(old_tag.spec_bytes())),
            forall|x: Seq<char>|
                holds_string(r.tags_to_add@, x) <==> (holds_string(self.tags_to_add@, x) || x
                    == base64_of(new_tag.spec_bytes())),
            r == (UpdateBuilder {
                tags_to_add: r.tags_to_add,
                tags_to_remove: r.tags_to_remove,
                ..self
            }),
    {
        let mut b = self;
        let removed = base64_encode(old_tag);
        push_unique_string(&mut b.tags_to_remove, removed);
        let added = base64_encode(new_tag);
        push_unique_string(&mut b.tags_to_add, added);
        b
    }

    /// Queues a relationship to add, its name base64-encoded.
    pub fn add_relationship(self, addr: &String, name: &str) -> (r: Self)
        ensures
            forall|x: (Seq<char>, Seq<char>)|
                holds_pair(r.rels_to_add@, x) <==> (holds_pair(self.rels_to_add@, x) || x == (
                addr@, base64_of(name.spec_bytes()))),
            r == (UpdateBuilder { rels_to_add: r.rels_to_add, ..self }),
    {
        let mut b = self;
        let tag = AddressTag { address: addr.clone(), tag: base64_encode(name) };
        push_unique_pair(&mut b.rels_to_add, tag);
        b
    }

    /// Queues several relationships to add for one address, each name
    /// base64-encoded, skipping duplicates.
    pub fn add_relationships(self, addr: &String, names: Vec<&str>) -> (r: Self)
        ensures
            r == (UpdateBuilder { rels_to_add: r.rels_to_add, ..self }),
            forall|j: int|
                0 <= j < names@.len() ==> holds_pair(
                    r.rels_to_add@,
                    (addr@, base64_of((#[trigger] names@[j]).spec_bytes())),
                ),
            forall|x: (Seq<char>, Seq<char>)|
                holds_pair(r.rels_to_add@, x) ==> (holds_pair(self.rels_to_add@, x) || exists|
                    j: int,
                |
                    0 <= j < names@.len() && x == (
                    addr@,
                    base64_of((#[trigger] names@[j]).spec_bytes()),
                    )),
    {
        let mut b = self;
        let mut i: usize = 0;
        while i < names.len()
            invariant
                i <= names@.len(),
                b == (UpdateBuilder { rels_to_add: b.rels_to_add, ..self }),
                forall|j: int|
                    0 <= j < i ==> holds_pair(
                        b.rels_to_add@,
                        (addr@, base64_of((#[trigger] names@[j]).spec_bytes())),
                    ),
                forall|x: (Seq<char>, Seq<char>)|
                    holds_pair(b.rels_to_add@, x) ==> (holds_pair(self.rels_to_add@, x) || exists|
                        j: int,
                    |
                        0 <= j < i && x == (
                        addr@,
                        base64_of((#[trigger] names@[j]).spec_bytes()),
                        )),
            decreases names@.len() - i,
        {
            let tag = AddressTag { address: addr.clone(), tag: base64_encode(names[i]) };
            let ghost pre = b.rels_to_add@;
            push_unique_pair(&mut b.rels_to_add, tag);
            proof {
                assert forall|x: (Seq<char>, Seq<char>)| holds_pair(b.rels_to_add@, x) implies (
                holds_pair(self.rels_to_add@, x) || exists|j: int|
                    0 <= j < i + 1 && x == (
                    addr@,
                    base64_of((#[trigger] names@[j]).spec_bytes()),
                    )) by {
                    if x == (addr@, base64_of(names@[i as int].spec_bytes())) {
                        assert(0 <= i < i + 1 && x == (
                        addr@,
                        base64_of(names@[i as int].spec_bytes()),
                        ));
                    } else {
                        assert(holds_pair(pre, x));
                    }
                }
                assert forall|j: int| 0 <= j < i + 1 implies holds_pair(
                    b.rels_to_add@,
                    (addr@, base64_of((#[trigger] names@[j]).spec_bytes())),
                ) by {
                    if j < i {
                        assert(holds_pair(pre, (addr@, base64_of(names@[j].spec_bytes()))));
                    }
                }
            }
            i = i + 1;
        }
        b
    }

    /// Queues several relationships to remove for one address, each
    /// name base64-encoded, skipping duplicates.
    pub fn remove_relationships(self, addr: &String, names: Vec<&str>) -> (r: Self)
        ensures
            r == (UpdateBuilder { rels_to_remove: r.rels_to_remove, ..self }),
            forall|j: int|
                0 <= j < names@.len() ==> holds_pair(
                    r.rels_to_remove@,
                    (addr@, base64_of((#[trigger] names@[j]).spec_bytes())),
                ),
            forall|x: (Seq<char>, Seq<char>)|
                holds_pair(r.rels_to_remove@, x) ==> (holds_pair(self.rels_to_remove@, x)
                    || exists|j: int|
                    0 <= j < names@.len() && x == (
                    addr@,
                    base64_of((#[trigger] names@[j]).spec_bytes()),
                    )),
    {
        let mut b = self;
        let mut i: usize = 0;
        while i < names.len()
            invariant
                i <= names@.len(),
                b == (UpdateBuilder { rels_to_remove: b.rels_to_remove, ..self }),
                forall|j: int|
                    0 <= j < i ==> holds_pair(
                        b.rels_to_remove@,
                        (addr@, base64_of((#[trigger] names@[j]).spec_bytes())),
                    ),
                forall|x: (Seq<char>, Seq<char>)|
                    holds_pair(b.rels_to_remove@, x) ==> (holds_pair(self.rels_to_remove@, x)
                        || exists|j: int|
                        0 <= j < i && x == (
                        addr@,
                        base64_of((#[trigger] names@[j]).spec_bytes()),
                        )),
            decreases names@.len() - i,
        {
            let tag = AddressTag { address: addr.clone(), tag: base64_encode(names[i]) };
            let ghost pre = b.rels_to_remove@;
            push_unique_pair(&mut b.rels_to_remove, tag);
            proof {
                assert forall|x: (Seq<char>, Seq<char>)| holds_pair(b.rels_to_remove@, x) implies (
                holds_pair(self.rels_to_remove@, x) || exists|j: int|
                    0 <= j < i + 1 && x == (
                    addr@,
                    base64_of((#[trigger] names@[j]).spec_bytes()),
                    )) by {
                    if x == (addr@, base64_of(names@[i as int].spec_bytes())) {
                        assert(0 <= i < i + 1 && x == (
                        addr@,
                        base64_of(names@[i as int].spec_bytes()),
                        ));
                    } else {
                        assert(holds_pair(pre, x));
                    }
                }
                assert forall|j: int| 0 <= j < i + 1 implies holds_pair(
                    b.rels_to_remove@,
                    (addr@, base64_of((#[trigger] names@[j]).spec_bytes())),
                ) by {
                    if j < i {
                        assert(holds_pair(pre, (addr@, base64_of(names@[j].spec_bytes()))));
                    }
                }
            }
            i = i + 1;
        }
        b
    }

    /// Queues a relationship to remove, its name base64-encoded.
    pub fn remove_relationship(self, addr: &String, name: &str) -> (r: Self)
        ensures
            forall|x: (Seq<char>, Seq<char>)|
                holds_pair(r.rels_to_remove@, x) <==> (holds_pair(self.rels_to_remove@, x) || x
                    == (addr@, base64_of(name.spec_bytes()))),
            r == (UpdateBuilder { rels_to_remove: r.rels_to_remove, ..self }),
    {
        let mut b = self;
        let tag = AddressTag { address: addr.clone(), tag: base64_encode(name) };
        push_unique_pair(&mut b.rels_to_remove, tag);
        b
    }

    /// Queues one relationship name to drop and another to take its
    /// place, for the same address.
    pub fn change_relationship(self, addr: &String, old_name: &str, new_name: &str) -> (r: Self)
        ensures
            forall|x: (Seq<char>, Seq<char>)|
                holds_pair(r.rels_to_remove@, x) <==> (holds_pair(self.rels_to_remove@, x) || x
                    == (addr@, base64_of(old_name.spec_bytes()))),
            forall|x: (Seq<char>, Seq<char>)|
                holds_pair(r.rels_to_add@, x) <==> (holds_pair(self.rels_to_add@, x) || x == (
                addr@, base64_of(new_name.spec_bytes()))),
            r == (UpdateBuilder {
                rels_to_add: r.rels_to_add,
                rels_to_remove: r.rels_to_remove,
                ..self
            }),
    {
        let mut b = self;
        let removed = AddressTag { address: addr.clone(), tag: base64_encode(old_name) };
        push_unique_pair(&mut b.rels_to_remove, removed);
        let added = AddressTag { address: addr.clone(), tag: base64_encode(new_name) };
        push_unique_pair(&mut b.rels_to_add, added);
        b
    }
}

} // verus!
