//! Data model of the registry.
//!
//! Addresses travel as plain strings, timestamps as their nanosecond
//! count, and opaque payloads as byte vectors; the host shell converts
//! at the boundary.

use vstd::prelude::*;

verus! {

/// Identifier of a managed contract: monotonically increasing, never
/// reused.
pub type ContractID = u64;

/// A small integer addressing one of the custom index positions of a
/// value kind.
pub type Slot = u8;

/// A pagination cursor: the last returned key rendered as bytes, and
/// the last returned item id.
pub type Cursor = (Vec<u8>, ContractID);

/// Metadata the registry keeps for each managed contract.
#[derive(Clone, Copy, Debug, PartialEq, Eq, Structural)]
pub struct ContractMetadata {
    pub id: ContractID,
    pub code_id: u64,
    pub height: u64,
    /// Creation time in nanoseconds.
    pub created_at: u64,
    /// Last update time in nanoseconds.
    pub updated_at: u64,
    /// Revision counter: starts at 0, increments by 1 per update.
    pub rev: u64,
}

impl View for ContractMetadata {
    type V = ContractMetadata;

    open spec fn view(&self) -> ContractMetadata {
        *self
    }
}

/// The most recently touched key of a custom index, tagged by kind.
#[derive(Debug)]
pub enum IndexPrefix {
    Uint64(u64),
    Uint128(u128),
    Text(String),
    Timestamp(u64),
    Boolean(u8),
}

/// The model of an [`IndexPrefix`].
pub enum PrefixView {
    Uint64(u64),
    Uint128(u128),
    Text(Seq<char>),
    Timestamp(u64),
    Boolean(u8),
}

impl View for IndexPrefix {
    type V = PrefixView;

    open spec fn view(&self) -> PrefixView {
        match self {
            IndexPrefix::Uint64(v) => PrefixView::Uint64(*v),
            IndexPrefix::Uint128(v) => PrefixView::Uint128(*v),
            IndexPrefix::Text(s) => PrefixView::Text(s@),
            IndexPrefix::Timestamp(v) => PrefixView::Timestamp(*v),
            IndexPrefix::Boolean(v) => PrefixView::Boolean(*v),
        }
    }
}

impl Clone for IndexPrefix {
    fn clone(&self) -> (r: Self)
        ensures
            r@ == self@,
    {
        match self {
            IndexPrefix::Uint64(v) => IndexPrefix::Uint64(*v),
            IndexPrefix::Uint128(v) => IndexPrefix::Uint128(*v),
            IndexPrefix::Text(s) => IndexPrefix::Text(s.clone()),
            IndexPrefix::Timestamp(v) => IndexPrefix::Timestamp(*v),
            IndexPrefix::Boolean(v) => IndexPrefix::Boolean(*v),
        }
    }
}

/// Descriptive record of one custom index slot.
#[derive(Debug)]
pub struct IndexMetadata {
    pub slot: Slot,
    /// Optional display name.
    pub name: Option<String>,
    /// When the slot was last touched, in nanoseconds.
    pub updated_at: Option<u64>,
    /// The compound key last written into the slot.
    pub updated_key: Option<(IndexPrefix, ContractID)>,
    /// Count of live entries in the slot's table.
    pub size: u64,
}

/// The model of an [`IndexMetadata`] record.
pub struct MetaView {
    pub slot: Slot,
    pub name: Option<Seq<char>>,
    pub updated_at: Option<u64>,
    pub updated_key: Option<(PrefixView, ContractID)>,
    pub size: u64,
}

impl View for IndexMetadata {
    type V = MetaView;

    open spec fn view(&self) -> MetaView {
        MetaView {
            slot: self.slot,
            name: match &self.name {
                Option::None => Option::None,
                Option::Some(s) => Option::Some(s@),
            },
            updated_at: self.updated_at,
            updated_key: match &self.updated_key {
                Option::None => Option::None,
                Option::Some(k) => Option::Some((k.0@, k.1)),
            },
            size: self.size,
        }
    }
}

impl Clone for IndexMetadata {
    fn clone(&self) -> (r: Self)
        ensures
            r@ == self@,
    {
        IndexMetadata {
            slot: self.slot,
            name: match &self.name {
                Option::None => Option::None,
                Option::Some(s) => Option::Some(s.clone()),
            },
            updated_at: self.updated_at,
            updated_key: match &self.updated_key {
                Option::None => Option::None,
                Option::Some(k) => Option::Some((k.0.clone(), k.1)),
            },
            size: self.size,
        }
    }
}

impl IndexMetadata {
    /// A fresh record for a slot: the given name, no touches yet, size
    /// zero.
    pub fn new(slot: Slot, name: &Option<String>) -> (r: Self)
        ensures
            r@.slot == slot,
            r@.name == match name {
                Option::None => Option::<Seq<char>>::None,
                Option::Some(s) => Option::Some(s@),
            },
            r@.updated_at matches Option::None,
            r@.updated_key matches Option::None,
            r@.size == 0,
    {
        IndexMetadata {
            slot,
            name: match name {
                Option::None => Option::None,
                Option::Some(s) => Option::Some(s.clone()),
            },
            updated_at: Option::None,
            updated_key: Option::None,
            size: 0,
        }
    }
}

/// The current value of every custom index slot of one item: five
/// fixed-length arrays, one per value kind.
#[derive(Debug)]
pub struct IndexedValues {
    pub uint64: Vec<Option<u64>>,
    pub uint128: Vec<Option<u128>>,
    pub text: Vec<Option<String>>,
    /// Timestamps as nanoseconds.
    pub timestamp: Vec<Option<u64>>,
    /// Booleans as 0/1.
    pub boolean: Vec<Option<u8>>,
}

/// The model of an [`IndexedValues`] record.
#[verifier::ext_equal]
pub struct IndexedValuesView {
    pub uint64: Seq<Option<u64>>,
    pub uint128: Seq<Option<u128>>,
    pub text: Seq<Option<Seq<char>>>,
    pub timestamp: Seq<Option<u64>>,
    pub boolean: Seq<Option<u8>>,
}

/// The model of a vector of optional strings.
pub open spec fn opt_strings_view(v: Seq<Option<String>>) -> Seq<Option<Seq<char>>> {
    Seq::new(
        v.len(),
        |i: int|
            match v[i] {
                Option::None => Option::None,
                Option::Some(s) => Option::Some(s@),
            },
    )
}

impl View for IndexedValues {
    type V = IndexedValuesView;

    open spec fn view(&self) -> IndexedValuesView {
        IndexedValuesView {
            uint64: self.uint64@,
            uint128: self.uint128@,
            text: opt_strings_view(self.text@),
            timestamp: self.timestamp@,
            boolean: self.boolean@,
        }
    }
}

impl IndexedValuesView {
    /// Whether every kind has exactly one entry per slot.
    pub open spec fn wf(&self, slot_count: int) -> bool {
        self.uint64.len() == slot_count && self.uint128.len() == slot_count && self.text.len()
            == slot_count && self.timestamp.len() == slot_count && self.boolean.len() == slot_count
    }
}

impl Clone for IndexedValues {
    fn clone(&self) -> (r: Self)
        ensures
            r@ == self@,
    {
        let mut text: Vec<Option<String>> = Vec::new();
        let mut i: usize = 0;
        while i < self.text.len()
            invariant
                i <= self.text@.len(),
                opt_strings_view(text@) =~= opt_strings_view(self.text@.take(i as int)),
                text@.len() == i,
            decreases self.text@.len() - i,
        {
            let s: Option<String> = match &self.text[i] {
                Option::None => Option::None,
                Option::Some(s) => Option::Some(s.clone()),
            };
            proof {
                assert(match (s, self.text@[i as int]) {
                    (Option::None, Option::None) => true,
                    (Option::Some(a), Option::Some(b)) => a@ == b@,
                    _ => false,
                });
            }
            let ghost pre = text@;
            text.push(s);
            proof {
                assert forall|j: int| 0 <= j < text@.len() implies opt_strings_view(text@)[j]
                    == opt_strings_view(self.text@.take(i + 1))[j] by {
                    if j < i {
                        assert(opt_strings_view(pre)[j] == opt_strings_view(
                            self.text@.take(i as int),
                        )[j]);
                        assert(text@[j] == pre[j]);
                        assert(self.text@.take(i + 1)[j] == self.text@.take(i as int)[j]);
                    } else {
                        assert(text@[j] == s);
                        assert(self.text@.take(i + 1)[j] == self.text@[i as int]);
                    }
                }
                assert(opt_strings_view(text@) =~= opt_strings_view(self.text@.take(i + 1)));
            }
            i = i + 1;
        }
        proof {
            assert(self.text@.take(self.text@.len() as int) =~= self.text@);
        }
        let r = IndexedValues {
            uint64: self.uint64.clone(),
            uint128: self.uint128.clone(),
            text,
            timestamp: self.timestamp.clone(),
            boolean: self.boolean.clone(),
        };
        proof {
            assert(r.uint64@ =~= self.uint64@);
            assert(r.uint128@ =~= self.uint128@);
            assert(r.timestamp@ =~= self.timestamp@);
            assert(r.boolean@ =~= self.boolean@);
        }
        r
    }
}

impl IndexedValues {
    /// A record with every slot of every kind empty.
    pub fn new() -> (r: Self)
        ensures
            r@.wf(crate::SLOT_COUNT as int),
            forall|i: int| 0 <= i < crate::SLOT_COUNT ==> (#[trigger] r@.uint64[i]) matches Option::None,
            forall|i: int| 0 <= i < crate::SLOT_COUNT ==> (#[trigger] r@.uint128[i]) matches Option::None,
            forall|i: int| 0 <= i < crate::SLOT_COUNT ==> (#[trigger] r@.text[i]) matches Option::None,
            forall|i: int| 0 <= i < crate::SLOT_COUNT ==> (#[trigger] r@.timestamp[i]) matches Option::None,
            forall|i: int| 0 <= i < crate::SLOT_COUNT ==> (#[trigger] r@.boolean[i]) matches Option::None,
    {
        let mut uint64: Vec<Option<u64>> = Vec::new();
        let mut uint128: Vec<Option<u128>> = Vec::new();
        let mut text: Vec<Option<String>> = Vec::new();
        let mut timestamp: Vec<Option<u64>> = Vec::new();
        let mut boolean: Vec<Option<u8>> = Vec::new();
        let mut i: u8 = 0;
        while i < crate::SLOT_COUNT
            invariant
                i <= crate::SLOT_COUNT,
                uint64@.len() == i,
                uint128@.len() == i,
                text@.len() == i,
                timestamp@.len() == i,
                boolean@.len() == i,
                forall|j: int| 0 <= j < i ==> (#[trigger] uint64@[j]) matches Option::None,
                forall|j: int| 0 <= j < i ==> (#[trigger] uint128@[j]) matches Option::None,
                forall|j: int| 0 <= j < i ==> (#[trigger] text@[j]) matches Option::None,
                forall|j: int| 0 <= j < i ==> (#[trigger] timestamp@[j]) matches Option::None,
                forall|j: int| 0 <= j < i ==> (#[trigger] boolean@[j]) matches Option::None,
            decreases crate::SLOT_COUNT - i,
        {
            uint64.push(Option::None);
            uint128.push(Option::None);
            text.push(Option::None);
            timestamp.push(Option::None);
            boolean.push(Option::None);
            i = i + 1;
        }
        IndexedValues { uint64, uint128, text, timestamp, boolean }
    }
}

/// A free-text tag attached to an address.
#[derive(Debug)]
pub struct AddressTag {
    pub address: String,
    pub tag: String,
}

impl View for AddressTag {
    type V = (Seq<char>, Seq<char>);

    open spec fn view(&self) -> (Seq<char>, Seq<char>) {
        (self.address@, self.tag@)
    }
}

impl Clone for AddressTag {
    fn clone(&self) -> (r: Self)
        ensures
            r@ == self@,
    {
        AddressTag { address: self.address.clone(), tag: self.tag.clone() }
    }
}

/// Tags to add to and remove from an item.
#[derive(Debug)]
pub struct TagUpdates {
    pub added: Option<Vec<String>>,
    pub removed: Option<Vec<String>>,
}

/// Relationships to add to and remove from an item.
#[derive(Debug)]
pub struct RelationshipUpdates {
    pub added: Option<Vec<AddressTag>>,
    pub removed: Option<Vec<AddressTag>>,
}

/// A generic string pair.
#[derive(Debug)]
pub struct KeyValue {
    pub key: String,
    pub value: String,
}

/// Which state fields a select query should load; an empty or missing
/// list means all of them.
#[derive(Debug)]
pub struct Select {
    pub fields: Option<Vec<String>>,
}

/// A value for one custom index slot, tagged by kind.
#[derive(Debug)]
pub enum IndexSlotValue {
    Uint64 { slot: Slot, value: u64 },
    Uint128 { slot: Slot, value: u128 },
    /// The timestamp in nanoseconds.
    Timestamp { slot: Slot, value: u64 },
    Text { slot: Slot, value: String },
    Boolean { slot: Slot, value: bool },
}

/// The model of an [`IndexSlotValue`].
pub enum SlotValueView {
    Uint64 { slot: Slot, value: u64 },
    Uint128 { slot: Slot, value: u128 },
    Timestamp { slot: Slot, value: u64 },
    Text { slot: Slot, value: Seq<char> },
    Boolean { slot: Slot, value: bool },
}

impl View for IndexSlotValue {
    type V = SlotValueView;

    open spec fn view(&self) -> SlotValueView {
        match self {
            IndexSlotValue::Uint64 { slot, value } => SlotValueView::Uint64 {
                slot: *slot,
                value: *value,
            },
            IndexSlotValue::Uint128 { slot, value } => SlotValueView::Uint128 {
                slot: *slot,
                value: *value,
            },
            IndexSlotValue::Timestamp { slot, value } => SlotValueView::Timestamp {
                slot: *slot,
                value: *value,
            },
            IndexSlotValue::Text { slot, value } => SlotValueView::Text {
                slot: *slot,
                value: value@,
            },
            IndexSlotValue::Boolean { slot, value } => SlotValueView::Boolean {
                slot: *slot,
                value: *value,
            },
        }
    }
}

impl Clone for IndexSlotValue {
    fn clone(&self) -> (r: Self)
        ensures
            r@ == self@,
    {
        match self {
            IndexSlotValue::Uint64 { slot, value } => IndexSlotValue::Uint64 {
                slot: *slot,
                value: *value,
            },
            IndexSlotValue::Uint128 { slot, value } => IndexSlotValue::Uint128 {
                slot: *slot,
                value: *value,
            },
            IndexSlotValue::Timestamp { slot, value } => IndexSlotValue::Timestamp {
                slot: *slot,
                value: *value,
            },
            IndexSlotValue::Text { slot, value } => IndexSlotValue::Text {
                slot: *slot,
                value: value.clone(),
            },
            IndexSlotValue::Boolean { slot, value } => IndexSlotValue::Boolean {
                slot: *slot,
                value: *value,
            },
        }
    }
}

/// A display name for one custom index slot, tagged by kind.
#[derive(Debug)]
pub enum IndexSlotName {
    Uint64 { slot: Slot, name: Option<String> },
    Uint128 { slot: Slot, name: Option<String> },
    Timestamp { slot: Slot, name: Option<String> },
    Text { slot: Slot, name: Option<String> },
    Boolean { slot: Slot, name: Option<String> },
}

/// A stored recipe for instantiating a managed contract.
#[derive(Debug)]
pub struct InstantiationPreset {
    pub code_id: Option<u64>,
    /// The instantiate payload, as opaque bytes.
    pub msg: Vec<u8>,
    pub admin: Option<String>,
    pub indices: Option<Vec<IndexSlotValue>>,
    pub label: Option<String>,
    pub tags: Option<Vec<String>>,
}

/// The model of an [`InstantiationPreset`].
pub struct PresetView {
    pub code_id: Option<u64>,
    pub msg: Seq<u8>,
    pub admin: Option<Seq<char>>,
    pub indices: Option<Seq<SlotValueView>>,
    pub label: Option<Seq<char>>,
    pub tags: Option<Seq<Seq<char>>>,
}

/// The model of a vector of slot values.
pub open spec fn slot_values_view(v: Seq<IndexSlotValue>) -> Seq<SlotValueView> {
    Seq::new(v.len(), |i: int| v[i]@)
}

/// The model of a vector of strings.
pub open spec fn strings_view(v: Seq<String>) -> Seq<Seq<char>> {
    Seq::new(v.len(), |i: int| v[i]@)
}

impl View for InstantiationPreset {
    type V = PresetView;

    open spec fn view(&self) -> PresetView {
        PresetView {
            code_id: self.code_id,
            msg: self.msg@,
            admin: match &self.admin {
                Option::None => Option::None,
                Option::Some(s) => Option::Some(s@),
            },
            indices: match &self.indices {
                Option::None => Option::None,
                Option::Some(v) => Option::Some(slot_values_view(v@)),
            },
            label: match &self.label {
                Option::None => Option::None,
                Option::Some(s) => Option::Some(s@),
            },
            tags: match &self.tags {
                Option::None => Option::None,
                Option::Some(v) => Option::Some(strings_view(v@)),
            },
        }
    }
}

/// The bound specification of a range query: which index to read, and
/// either an equality or an open/closed range on its values.
#[derive(Debug)]
pub enum IndexBounds {
    CodeId { between: Option<(Option<u64>, Option<u64>)>, equals: Option<u64> },
    Height { between: Option<(Option<u64>, Option<u64>)>, equals: Option<u64> },
    Address { between: Option<(Option<String>, Option<String>)>, equals: Option<String> },
    CreatedBy { between: Option<(Option<String>, Option<String>)>, equals: Option<String> },
    CreatedAt { between: Option<(Option<u64>, Option<u64>)>, equals: Option<u64> },
    UpdatedAt { between: Option<(Option<u64>, Option<u64>)>, equals: Option<u64> },
    Rev { between: Option<(Option<u64>, Option<u64>)>, equals: Option<u64> },
    Uint64 { slot: u8, between: Option<(Option<u64>, Option<u64>)>, equals: Option<u64> },
    Uint128 { slot: u8, between: Option<(Option<u128>, Option<u128>)>, equals: Option<u128> },
    Timestamp { slot: u8, between: Option<(Option<u64>, Option<u64>)>, equals: Option<u64> },
    Text { slot: u8, between: Option<(Option<String>, Option<String>)>, equals: Option<String> },
    Boolean { slot: u8, start: Option<bool>, stop: Option<bool> },
}

/// The per-slot metadata of every custom index, kind by kind.
#[derive(Debug)]
pub struct IndexMetadataView {
    pub uint64: Vec<IndexMetadata>,
    pub uint128: Vec<IndexMetadata>,
    pub text: Vec<IndexMetadata>,
    pub timestamp: Vec<IndexMetadata>,
    pub boolean: Vec<IndexMetadata>,
}

} // verus!
