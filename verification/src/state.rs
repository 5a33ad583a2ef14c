//! The registry state and its well-formedness invariant.

use vstd::prelude::*;
use vstd::utf8::encode_utf8;

use crate::error::ContractError;
use crate::keys::{EntryView, IndexKey, KeyView};
use crate::maps::{CodeIdSet, IdMap, PresetMap, StrMap};
use crate::models::{ContractMetadata, IndexMetadata, IndexedValues, InstantiationPreset};
use crate::msg::InstantiateMsg;
use crate::table::IndexTable;

verus! {

/// One of the five supported value kinds.
#[derive(Clone, Copy, Debug, PartialEq, Eq, Structural)]
pub enum ValueKind {
    Uint64,
    Uint128,
    Text,
    Timestamp,
    Boolean,
}

/// The table key of a 64-bit unsigned value.
pub open spec fn u64_key(v: u64) -> KeyView {
    KeyView::Num(v as u128)
}

/// The table key of a 128-bit unsigned value.
pub open spec fn u128_key(v: u128) -> KeyView {
    KeyView::Num(v)
}

/// The table key of a text value: its UTF-8 bytes.
pub open spec fn text_key(s: Seq<char>) -> KeyView {
    KeyView::Text(encode_utf8(s))
}

/// The table key of a boolean stored as 0/1.
pub open spec fn bool_key(b: u8) -> KeyView {
    KeyView::Num(b as u128)
}

/// Builds the table key of a 64-bit unsigned value.
pub fn make_u64_key(v: u64) -> (r: IndexKey)
    ensures
        r@ == u64_key(v),
{
    IndexKey::Num(v as u128)
}

/// Builds the table key of a 128-bit unsigned value.
pub fn make_u128_key(v: u128) -> (r: IndexKey)
    ensures
        r@ == u128_key(v),
{
    IndexKey::Num(v)
}

/// Builds the table key of a text value.
pub fn make_text_key(s: &str) -> (r: IndexKey)
    ensures
        r@ == text_key(s@),
{
    IndexKey::Text(vstd::slice::slice_to_vec(s.as_bytes()))
}

/// Builds the table key of a boolean stored as 0/1.
pub fn make_bool_key(b: u8) -> (r: IndexKey)
    ensures
        r@ == bool_key(b),
{
    IndexKey::Num(b as u128)
}

/// The whole state of one registry.
pub struct Registry {
    /// Who instantiated the registry.
    pub created_by: String,
    /// Address of the access-control contract, if one is configured.
    pub acl_address: Option<String>,
    /// Label given to managed contracts when the caller supplies none.
    pub default_label: Option<String>,
    /// Code id used by create when the caller supplies none.
    pub default_code_id: u64,
    /// Code ids create may instantiate.
    pub allowed_code_ids: CodeIdSet,
    /// Number of items created and not yet removed.
    pub count: u64,
    /// The next item id to hand out; never reused.
    pub next_id: u64,
    /// Address of each live item, by id.
    pub id_to_addr: IdMap<String>,
    /// Id of each live item, by address.
    pub addr_to_id: StrMap<u64>,
    /// Metadata of each live item, by id.
    pub metadata: IdMap<ContractMetadata>,
    /// Current custom index values of each created item, by id.
    pub id_to_values: IdMap<IndexedValues>,
    /// Custom index tables, one per slot.
    pub u64_tables: Vec<IndexTable>,
    pub u128_tables: Vec<IndexTable>,
    pub text_tables: Vec<IndexTable>,
    pub ts_tables: Vec<IndexTable>,
    pub bool_tables: Vec<IndexTable>,
    /// Custom index metadata, one record per initialized slot.
    pub u64_meta: Vec<Option<IndexMetadata>>,
    pub u128_meta: Vec<Option<IndexMetadata>>,
    pub text_meta: Vec<Option<IndexMetadata>>,
    pub ts_meta: Vec<Option<IndexMetadata>>,
    pub bool_meta: Vec<Option<IndexMetadata>>,
    /// Built-in indices.
    pub ix_created_at: IndexTable,
    pub ix_updated_at: IndexTable,
    pub ix_rev: IndexTable,
    pub ix_code_id: IndexTable,
    pub ix_height: IndexTable,
    /// Creator addresses; kept for items already removed too.
    pub ix_created_by: IndexTable,
    /// Item addresses, for address-ordered scans.
    pub ix_address: IndexTable,
    /// Tag associations: `(tag bytes, id)`.
    pub tags: IndexTable,
    /// Count of live tag associations.
    pub tags_size: u64,
    /// Relationship associations: `(address and relation, id)`.
    pub relationships: IndexTable,
    /// Count of live relationship associations.
    pub relationships_size: u64,
    /// Stored instantiation presets.
    pub presets: PresetMap,
}

/// The key under which a relationship is indexed: the address length,
/// the address bytes, then the relation name bytes.
pub open spec fn rel_key(addr: Seq<char>, rel: Seq<char>) -> KeyView {
    KeyView::Text(
        seq![
            ((encode_utf8(addr).len() / 256) % 256) as u8,
            (encode_utf8(addr).len() % 256) as u8,
        ] + encode_utf8(addr) + encode_utf8(rel),
    )
}

/// Builds the table key of a relationship.
pub fn make_rel_key(addr: &str, rel: &str) -> (r: IndexKey)
    ensures
        r@ == rel_key(addr@, rel@),
{
    let ab = addr.as_bytes();
    let rb = rel.as_bytes();
    let mut out: Vec<u8> = Vec::new();
    out.push(((ab.len() / 256) % 256) as u8);
    out.push((ab.len() % 256) as u8);
    let mut i: usize = 0;
    while i < ab.len()
        invariant
            i <= ab@.len(),
            out@ =~= seq![
                ((ab@.len() / 256) % 256) as u8,
                (ab@.len() % 256) as u8,
            ] + ab@.take(i as int),
        decreases ab@.len() - i,
    {
        out.push(ab[i]);
        proof {
            assert(ab@.take(i + 1) =~= ab@.take(i as int).push(ab@[i as int]));
        }
        i = i + 1;
    }
    proof {
        assert(ab@.take(ab@.len() as int) =~= ab@);
    }
    let mut j: usize = 0;
    let ghost head = out@;
    while j < rb.len()
        invariant
            j <= rb@.len(),
            out@ =~= head + rb@.take(j as int),
        decreases rb@.len() - j,
    {
        out.push(rb[j]);
        proof {
            assert(rb@.take(j + 1) =~= rb@.take(j as int).push(rb@[j as int]));
        }
        j = j + 1;
    }
    proof {
        assert(rb@.take(rb@.len() as int) =~= rb@);
        assert(out@ =~= seq![
            ((encode_utf8(addr@).len() / 256) % 256) as u8,
            (encode_utf8(addr@).len() % 256) as u8,
        ] + encode_utf8(addr@) + encode_utf8(rel@));
    }
    IndexKey::Text(out)
}

impl Registry {
    /// Whether every custom table and metadata vector has one entry per
    /// slot.
    pub open spec fn slots_wf(self) -> bool {
        &&& self.u64_tables@.len() == crate::SLOT_COUNT
        &&& self.u128_tables@.len() == crate::SLOT_COUNT
        &&& self.text_tables@.len() == crate::SLOT_COUNT
        &&& self.ts_tables@.len() == crate::SLOT_COUNT
        &&& self.bool_tables@.len() == crate::SLOT_COUNT
        &&& self.u64_meta@.len() == crate::SLOT_COUNT
        &&& self.u128_meta@.len() == crate::SLOT_COUNT
        &&& self.text_meta@.len() == crate::SLOT_COUNT
        &&& self.ts_meta@.len() == crate::SLOT_COUNT
        &&& self.bool_meta@.len() == crate::SLOT_COUNT
    }

    /// Whether every table is strictly sorted and every map has
    /// distinct keys.
    pub open spec fn containers_wf(self) -> bool {
        &&& forall|s: int|
            0 <= s < crate::SLOT_COUNT ==> (#[trigger] self.u64_tables@[s]).wf()
        &&& forall|s: int|
            0 <= s < crate::SLOT_COUNT ==> (#[trigger] self.u128_tables@[s]).wf()
        &&& forall|s: int|
            0 <= s < crate::SLOT_COUNT ==> (#[trigger] self.text_tables@[s]).wf()
        &&& forall|s: int|
            0 <= s < crate::SLOT_COUNT ==> (#[trigger] self.ts_tables@[s]).wf()
        &&& forall|s: int|
            0 <= s < crate::SLOT_COUNT ==> (#[trigger] self.bool_tables@[s]).wf()
        &&& self.ix_created_at.wf()
        &&& self.ix_updated_at.wf()
        &&& self.ix_rev.wf()
        &&& self.ix_code_id.wf()
        &&& self.ix_height.wf()
        &&& self.ix_created_by.wf()
        &&& self.ix_address.wf()
        &&& self.tags.wf()
        &&& self.relationships.wf()
        &&& self.id_to_addr.wf()
        &&& self.addr_to_id.wf()
        &&& self.metadata.wf()
        &&& self.id_to_values.wf()
        &&& self.presets.wf()
        &&& self.allowed_code_ids.wf()
    }

    /// Whether every stored values record has one entry per slot, and
    /// every known id is below the allocator.
    pub open spec fn values_wf(self) -> bool {
        &&& forall|id: u64|
            self.id_to_values@.contains_key(id) ==> (#[trigger] self.id_to_values@[id]).wf(
                crate::SLOT_COUNT as int,
            )
        &&& forall|id: u64| #[trigger] self.id_to_values@.contains_key(id) ==> id < self.next_id
        &&& forall|id: u64| #[trigger] self.metadata@.contains_key(id) ==> id < self.next_id
        &&& forall|id: u64|
            #[trigger] self.metadata@.contains_key(id) ==> self.id_to_values@.contains_key(id)
    }

    /// The sync invariant for 64-bit integer slots: slot `s` holds the
    /// compound key `(k, id)` exactly when item `id`'s record has a
    /// value in that slot and `k` is its key.
    pub open spec fn u64_slot_synced(self, s: int) -> bool {
        forall|k: KeyView, id: u64|
            #[trigger] self.u64_tables@[s]@.contains((k, id)) <==> (
            self.id_to_values@.contains_key(id) && match self.id_to_values@[id].uint64[s] {
                Option::Some(v) => k == u64_key(v),
                Option::None => false,
            })
    }

    /// The sync invariant for 128-bit integer slots.
    pub open spec fn u128_slot_synced(self, s: int) -> bool {
        forall|k: KeyView, id: u64|
            #[trigger] self.u128_tables@[s]@.contains((k, id)) <==> (
            self.id_to_values@.contains_key(id) && match self.id_to_values@[id].uint128[s] {
                Option::Some(v) => k == u128_key(v),
                Option::None => false,
            })
    }

    /// The sync invariant for text slots.
    pub open spec fn text_slot_synced(self, s: int) -> bool {
        forall|k: KeyView, id: u64|
            #[trigger] self.text_tables@[s]@.contains((k, id)) <==> (
            self.id_to_values@.contains_key(id) && match self.id_to_values@[id].text[s] {
                Option::Some(v) => k == text_key(v),
                Option::None => false,
            })
    }

    /// The sync invariant for timestamp slots.
    pub open spec fn ts_slot_synced(self, s: int) -> bool {
        forall|k: KeyView, id: u64|
            #[trigger] self.ts_tables@[s]@.contains((k, id)) <==> (
            self.id_to_values@.contains_key(id) && match self.id_to_values@[id].timestamp[s] {
                Option::Some(v) => k == u64_key(v),
                Option::None => false,
            })
    }

    /// The sync invariant for boolean slots.
    pub open spec fn bool_slot_synced(self, s: int) -> bool {
        forall|k: KeyView, id: u64|
            #[trigger] self.bool_tables@[s]@.contains((k, id)) <==> (
            self.id_to_values@.contains_key(id) && match self.id_to_values@[id].boolean[s] {
                Option::Some(v) => k == bool_key(v),
                Option::None => false,
            })
    }

    /// The sync invariant over every kind and slot: a compound key
    /// `(v, id)` exists in a slot's table exactly when the item's
    /// values record holds `v` in that slot.
    pub open spec fn sync_invariant(self) -> bool {
        &&& forall|s: int| 0 <= s < crate::SLOT_COUNT ==> #[trigger] self.u64_slot_synced(s)
        &&& forall|s: int| 0 <= s < crate::SLOT_COUNT ==> #[trigger] self.u128_slot_synced(s)
        &&& forall|s: int| 0 <= s < crate::SLOT_COUNT ==> #[trigger] self.text_slot_synced(s)
        &&& forall|s: int| 0 <= s < crate::SLOT_COUNT ==> #[trigger] self.ts_slot_synced(s)
        &&& forall|s: int| 0 <= s < crate::SLOT_COUNT ==> #[trigger] self.bool_slot_synced(s)
    }

    /// The size invariant: each initialized slot's metadata counts
    /// exactly the live compound keys of its table, and the tag and
    /// relationship counters count theirs.
    pub open spec fn size_invariant(self) -> bool {
        &&& forall|s: int|
            0 <= s < crate::SLOT_COUNT ==> match #[trigger] self.u64_meta@[s] {
                Option::Some(m) => m@.size == self.u64_tables@[s]@.len(),
                Option::None => self.u64_tables@[s]@.len() == 0,
            }
        &&& forall|s: int|
            0 <= s < crate::SLOT_COUNT ==> match #[trigger] self.u128_meta@[s] {
                Option::Some(m) => m@.size == self.u128_tables@[s]@.len(),
                Option::None => self.u128_tables@[s]@.len() == 0,
            }
        &&& forall|s: int|
            0 <= s < crate::SLOT_COUNT ==> match #[trigger] self.text_meta@[s] {
                Option::Some(m) => m@.size == self.text_tables@[s]@.len(),
                Option::None => self.text_tables@[s]@.len() == 0,
            }
        &&& forall|s: int|
            0 <= s < crate::SLOT_COUNT ==> match #[trigger] self.ts_meta@[s] {
                Option::Some(m) => m@.size == self.ts_tables@[s]@.len(),
                Option::None => self.ts_tables@[s]@.len() == 0,
            }
        &&& forall|s: int|
            0 <= s < crate::SLOT_COUNT ==> match #[trigger] self.bool_meta@[s] {
                Option::Some(m) => m@.size == self.bool_tables@[s]@.len(),
                Option::None => self.bool_tables@[s]@.len() == 0,
            }
        &&& self.tags_size == self.tags@.len()
        &&& self.relationships_size == self.relationships@.len()
    }

    /// The binding invariant: id-to-address and address-to-id agree,
    /// every bound id has metadata, and the address index mirrors the
    /// bindings.
    pub open spec fn binding_invariant(self) -> bool {
        &&& forall|id: u64|
            #[trigger] self.id_to_addr@.contains_key(id) <==> self.metadata@.contains_key(id)
        &&& forall|id: u64|
            #[trigger] self.id_to_addr@.contains_key(id) ==> (self.addr_to_id@.contains_key(
                self.id_to_addr@[id],
            ) && self.addr_to_id@[self.id_to_addr@[id]] == id)
        &&& forall|a: Seq<char>|
            #[trigger] self.addr_to_id@.contains_key(a) ==> (self.id_to_addr@.contains_key(
                self.addr_to_id@[a],
            ) && self.id_to_addr@[self.addr_to_id@[a]] == a)
        &&& forall|k: KeyView, id: u64|
            #[trigger] self.ix_address@.contains((k, id)) <==> (self.id_to_addr@.contains_key(id)
                && k == text_key(self.id_to_addr@[id]))
    }

    /// The built-in index invariant: the creation, update, revision,
    /// code and height indices each hold exactly one compound key per
    /// live item, derived from its metadata.
    pub open spec fn builtin_invariant(self) -> bool {
        &&& forall|k: KeyView, id: u64|
            #[trigger] self.ix_created_at@.contains((k, id)) <==> (self.metadata@.contains_key(id)
                && k == u64_key(self.metadata@[id].created_at))
        &&& forall|k: KeyView, id: u64|
            #[trigger] self.ix_updated_at@.contains((k, id)) <==> (self.metadata@.contains_key(id)
                && k == u64_key(self.metadata@[id].updated_at))
        &&& forall|k: KeyView, id: u64|
            #[trigger] self.ix_rev@.contains((k, id)) <==> (self.metadata@.contains_key(id) && k
                == u64_key(self.metadata@[id].rev))
        &&& forall|k: KeyView, id: u64|
            #[trigger] self.ix_code_id@.contains((k, id)) <==> (self.metadata@.contains_key(id)
                && k == u64_key(self.metadata@[id].code_id))
        &&& forall|k: KeyView, id: u64|
            #[trigger] self.ix_height@.contains((k, id)) <==> (self.metadata@.contains_key(id)
                && k == u64_key(self.metadata@[id].height))
    }

    /// The whole well-formedness invariant of a registry.
    pub open spec fn wf(self) -> bool {
        &&& self.slots_wf()
        &&& self.containers_wf()
        &&& self.values_wf()
        &&& self.sync_invariant()
        &&& self.size_invariant()
        &&& self.binding_invariant()
        &&& self.builtin_invariant()
    }
}


/// The slot a slot-name entry addresses.
pub open spec fn slot_of_name(n: crate::models::IndexSlotName) -> u8 {
    match n {
        crate::models::IndexSlotName::Uint64 { slot, .. } => slot,
        crate::models::IndexSlotName::Uint128 { slot, .. } => slot,
        crate::models::IndexSlotName::Timestamp { slot, .. } => slot,
        crate::models::IndexSlotName::Text { slot, .. } => slot,
        crate::models::IndexSlotName::Boolean { slot, .. } => slot,
    }
}

/// The kind a slot-name entry addresses.
pub open spec fn kind_of_name(n: crate::models::IndexSlotName) -> ValueKind {
    match n {
        crate::models::IndexSlotName::Uint64 { .. } => ValueKind::Uint64,
        crate::models::IndexSlotName::Uint128 { .. } => ValueKind::Uint128,
        crate::models::IndexSlotName::Timestamp { .. } => ValueKind::Timestamp,
        crate::models::IndexSlotName::Text { .. } => ValueKind::Text,
        crate::models::IndexSlotName::Boolean { .. } => ValueKind::Boolean,
    }
}

/// The display name a slot-name entry carries.
pub open spec fn name_of_name(n: crate::models::IndexSlotName) -> Option<Seq<char>> {
    match n {
        crate::models::IndexSlotName::Uint64 { name, .. } => match name {
            Option::None => Option::None,
            Option::Some(s) => Option::Some(s@),
        },
        crate::models::IndexSlotName::Uint128 { name, .. } => match name {
            Option::None => Option::None,
            Option::Some(s) => Option::Some(s@),
        },
        crate::models::IndexSlotName::Timestamp { name, .. } => match name {
            Option::None => Option::None,
            Option::Some(s) => Option::Some(s@),
        },
        crate::models::IndexSlotName::Text { name, .. } => match name {
            Option::None => Option::None,
            Option::Some(s) => Option::Some(s@),
        },
        crate::models::IndexSlotName::Boolean { name, .. } => match name {
            Option::None => Option::None,
            Option::Some(s) => Option::Some(s@),
        },
    }
}

/// The display name the initialization list assigns to a kind and
/// slot: that of its last entry for the pair, or nothing.
pub open spec fn init_name_for(
    l: Seq<crate::models::IndexSlotName>,
    kind: ValueKind,
    s: int,
) -> Option<Option<Seq<char>>>
    decreases l.len(),
{
    if l.len() == 0 {
        Option::None
    } else if kind_of_name(l.last()) == kind && slot_of_name(l.last()) == s {
        Option::Some(name_of_name(l.last()))
    } else {
        init_name_for(l.drop_last(), kind, s)
    }
}

/// Whether an optional metadata record is exactly the fresh record the
/// initialization list calls for.
pub open spec fn meta_initialized(
    m: Option<IndexMetadata>,
    want: Option<Option<Seq<char>>>,
    s: int,
) -> bool {
    match want {
        Option::None => m matches Option::None,
        Option::Some(nm) => {
            &&& m matches Option::Some(mm)
            &&& mm@.name == nm
            &&& mm@.size == 0
            &&& mm@.slot == s
            &&& mm@.updated_at is None
            &&& mm@.updated_key is None
        },
    }
}

/// The slot-name list an instantiate message carries, or empty.
pub open spec fn init_names(msg: &InstantiateMsg) -> Seq<crate::models::IndexSlotName> {
    match msg.indices {
        Option::None => Seq::empty(),
        Option::Some(v) => v@,
    }
}

/// Whether the message names a default label that is empty.
pub open spec fn has_empty_default_label(msg: &InstantiateMsg) -> bool {
    match msg.default_label {
        Option::Some(l) => l@.len() == 0,
        Option::None => false,
    }
}

/// The code id create falls back on: the named default, or the first
/// allowed one.
pub open spec fn resolved_default_code_id(msg: &InstantiateMsg) -> u64 {
    match msg.default_code_id {
        Option::Some(d) => d,
        Option::None => msg.code_ids@[0],
    }
}

/// The model of an optional string.
pub open spec fn opt_str_view(o: Option<String>) -> Option<Seq<char>> {
    match o {
        Option::None => Option::None,
        Option::Some(s) => Option::Some(s@),
    }
}

impl Registry {
    /// Sets up a fresh registry: validates the allowed code ids, the
    /// default label and the default code id, then starts with no
    /// items, empty indices, and one fresh metadata record per named
    /// slot.
    pub fn initialize(sender: String, msg: &InstantiateMsg) -> (r: Result<Registry, ContractError>)
        ensures
            msg.code_ids@.len() == 0 <==> r matches Err(ContractError::NoAllowedCodeIds),
            (r matches Err(ContractError::InvalidLabel)) <==> (msg.code_ids@.len() > 0
                && has_empty_default_label(msg)),
            (r matches Err(ContractError::CodeIdNotAllowed)) <==> (msg.code_ids@.len() > 0
                && !has_empty_default_label(msg) && !msg.code_ids@.contains(
                resolved_default_code_id(msg),
            )),
            (r matches Err(ContractError::SlotOutOfBounds { .. })) <==> (msg.code_ids@.len() > 0
                && !has_empty_default_label(msg) && msg.code_ids@.contains(
                resolved_default_code_id(msg),
            ) && exists|i: int|
                0 <= i < init_names(msg).len() && slot_of_name(#[trigger] init_names(msg)[i])
                    >= crate::SLOT_COUNT),
            r matches Err(e) ==> (e matches ContractError::NoAllowedCodeIds || e
                matches ContractError::InvalidLabel || e matches ContractError::CodeIdNotAllowed
                || e matches ContractError::SlotOutOfBounds { .. }),
            msg.code_ids@.len() > 0 && !has_empty_default_label(msg) && msg.code_ids@.contains(
                resolved_default_code_id(msg),
            ) && (forall|i: int|
                0 <= i < init_names(msg).len() ==> slot_of_name(#[trigger] init_names(msg)[i])
                    < crate::SLOT_COUNT) ==> r is Ok,
            r matches Ok(reg) ==> {
                &&& reg.wf()
                &&& reg.created_by@ == sender@
                &&& opt_str_view(reg.acl_address) == opt_str_view(msg.acl_address)
                &&& opt_str_view(reg.default_label) == opt_str_view(msg.default_label)
                &&& reg.default_code_id == resolved_default_code_id(msg)
                &&& forall|c: u64|
                    reg.allowed_code_ids@.contains(c) <==> msg.code_ids@.contains(c)
                &&& reg.count == 0
                &&& reg.next_id == 0
                &&& reg.id_to_addr@ == Map::<u64, Seq<char>>::empty()
                &&& reg.addr_to_id@ == Map::<Seq<char>, u64>::empty()
                &&& reg.metadata@ == Map::<u64, ContractMetadata>::empty()
                &&& reg.id_to_values@ == Map::<u64, crate::models::IndexedValuesView>::empty()
                &&& reg.tags@ == Seq::<EntryView>::empty()
                &&& reg.relationships@ == Seq::<EntryView>::empty()
                &&& reg.ix_created_by@ == Seq::<EntryView>::empty()
                &&& forall|s: int|
                    0 <= s < crate::SLOT_COUNT ==> meta_initialized(
                        #[trigger] reg.u64_meta@[s],
                        init_name_for(init_names(msg), ValueKind::Uint64, s),
                        s,
                    )
                &&& forall|s: int|
                    0 <= s < crate::SLOT_COUNT ==> meta_initialized(
                        #[trigger] reg.u128_meta@[s],
                        init_name_for(init_names(msg), ValueKind::Uint128, s),
                        s,
                    )
                &&& forall|s: int|
                    0 <= s < crate::SLOT_COUNT ==> meta_initialized(
                        #[trigger] reg.text_meta@[s],
                        init_name_for(init_names(msg), ValueKind::Text, s),
                        s,
                    )
                &&& forall|s: int|
                    0 <= s < crate::SLOT_COUNT ==> meta_initialized(
                        #[trigger] reg.ts_meta@[s],
                        init_name_for(init_names(msg), ValueKind::Timestamp, s),
                        s,
                    )
                &&& forall|s: int|
                    0 <= s < crate::SLOT_COUNT ==> meta_initialized(
                        #[trigger] reg.bool_meta@[s],
                        init_name_for(init_names(msg), ValueKind::Boolean, s),
                        s,
                    )
            },
    {
        if msg.code_ids.len() == 0 {
            return Result::Err(ContractError::NoAllowedCodeIds);
        }
        if let Option::Some(l) = &msg.default_label {
            if l.as_str().is_empty() {
                return Result::Err(ContractError::InvalidLabel);
            }
        }
        let default_code_id = match msg.default_code_id {
            Option::Some(d) => d,
            Option::None => msg.code_ids[0],
        };
        let mut allowed = CodeIdSet::new();
        let mut ci: usize = 0;
        while ci < msg.code_ids.len()
            invariant
                ci <= msg.code_ids@.len(),
                allowed.wf(),
                forall|c: u64| allowed@.contains(c) <==> msg.code_ids@.take(ci as int).contains(c),
            decreases msg.code_ids@.len() - ci,
        {
            let ghost pre = allowed@;
            allowed.insert(msg.code_ids[ci]);
            proof {
                assert forall|c: u64| allowed@.contains(c) <==> msg.code_ids@.take(
                    ci + 1,
                ).contains(c) by {
                    assert(msg.code_ids@.take(ci + 1) =~= msg.code_ids@.take(ci as int).push(
                        msg.code_ids@[ci as int],
                    ));
                    if msg.code_ids@.take(ci + 1).contains(c) {
                        let j = choose|j: int|
                            0 <= j < ci + 1 && #[trigger] msg.code_ids@.take(ci + 1)[j] == c;
                        if j < ci {
                            assert(msg.code_ids@.take(ci as int)[j] == c);
                            assert(msg.code_ids@.take(ci as int).contains(c));
                        }
                    }
                    if msg.code_ids@.take(ci as int).contains(c) {
                        let j = choose|j: int|
                            0 <= j < ci && #[trigger] msg.code_ids@.take(ci as int)[j] == c;
                        assert(msg.code_ids@.take(ci + 1)[j] == c);
                        assert(msg.code_ids@.take(ci + 1).contains(c));
                    }
                    if c == msg.code_ids@[ci as int] {
                        assert(msg.code_ids@.take(ci + 1)[ci as int] == c);
                        assert(msg.code_ids@.take(ci + 1).contains(c));
                    }
                }
            }
            ci = ci + 1;
        }
        proof {
            assert(msg.code_ids@.take(msg.code_ids@.len() as int) =~= msg.code_ids@);
        }
        if !allowed.contains(default_code_id) {
            return Result::Err(ContractError::CodeIdNotAllowed);
        }
        let mut u64_tables: Vec<IndexTable> = Vec::new();
        let mut u128_tables: Vec<IndexTable> = Vec::new();
        let mut text_tables: Vec<IndexTable> = Vec::new();
        let mut ts_tables: Vec<IndexTable> = Vec::new();
        let mut bool_tables: Vec<IndexTable> = Vec::new();
        let mut u64_meta: Vec<Option<IndexMetadata>> = Vec::new();
        let mut u128_meta: Vec<Option<IndexMetadata>> = Vec::new();
        let mut text_meta: Vec<Option<IndexMetadata>> = Vec::new();
        let mut ts_meta: Vec<Option<IndexMetadata>> = Vec::new();
        let mut bool_meta: Vec<Option<IndexMetadata>> = Vec::new();
        let mut si: u8 = 0;
        while si < crate::SLOT_COUNT
            invariant
                si <= crate::SLOT_COUNT,
                u64_tables@.len() == si,
                u128_tables@.len() == si,
                text_tables@.len() == si,
                ts_tables@.len() == si,
                bool_tables@.len() == si,
                u64_meta@.len() == si,
                u128_meta@.len() == si,
                text_meta@.len() == si,
                ts_meta@.len() == si,
                bool_meta@.len() == si,
                forall|s: int| 0 <= s < si ==> (#[trigger] u64_tables@[s]).wf()
                    && u64_tables@[s]@.len() == 0,
                forall|s: int| 0 <= s < si ==> (#[trigger] u128_tables@[s]).wf()
                    && u128_tables@[s]@.len() == 0,
                forall|s: int| 0 <= s < si ==> (#[trigger] text_tables@[s]).wf()
                    && text_tables@[s]@.len() == 0,
                forall|s: int| 0 <= s < si ==> (#[trigger] ts_tables@[s]).wf()
                    && ts_tables@[s]@.len() == 0,
                forall|s: int| 0 <= s < si ==> (#[trigger] bool_tables@[s]).wf()
                    && bool_tables@[s]@.len() == 0,
                forall|s: int| 0 <= s < si ==> (#[trigger] u64_meta@[s]) matches Option::None,
                forall|s: int| 0 <= s < si ==> (#[trigger] u128_meta@[s]) matches Option::None,
                forall|s: int| 0 <= s < si ==> (#[trigger] text_meta@[s]) matches Option::None,
                forall|s: int| 0 <= s < si ==> (#[trigger] ts_meta@[s]) matches Option::None,
                forall|s: int| 0 <= s < si ==> (#[trigger] bool_meta@[s]) matches Option::None,
            decreases crate::SLOT_COUNT - si,
        {
            u64_tables.push(IndexTable::new());
            u128_tables.push(IndexTable::new());
            text_tables.push(IndexTable::new());
            ts_tables.push(IndexTable::new());
            bool_tables.push(IndexTable::new());
            u64_meta.push(Option::None);
            u128_meta.push(Option::None);
            text_meta.push(Option::None);
            ts_meta.push(Option::None);
            bool_meta.push(Option::None);
            si = si + 1;
        }
        if let Option::Some(indices) = &msg.indices {
            let mut ii: usize = 0;
            while ii < indices.len()
                invariant
                    ii <= indices@.len(),
                    forall|j: int|
                        0 <= j < ii ==> slot_of_name(#[trigger] indices@[j]) < crate::SLOT_COUNT,
                    u64_meta@.len() == crate::SLOT_COUNT,
                    u128_meta@.len() == crate::SLOT_COUNT,
                    text_meta@.len() == crate::SLOT_COUNT,
                    ts_meta@.len() == crate::SLOT_COUNT,
                    bool_meta@.len() == crate::SLOT_COUNT,
                    forall|s: int|
                        0 <= s < crate::SLOT_COUNT ==> meta_initialized(
                            #[trigger] u64_meta@[s],
                            init_name_for(indices@.take(ii as int), ValueKind::Uint64, s),
                            s,
                        ),
                    forall|s: int|
                        0 <= s < crate::SLOT_COUNT ==> meta_initialized(
                            #[trigger] u128_meta@[s],
                            init_name_for(indices@.take(ii as int), ValueKind::Uint128, s),
                            s,
                        ),
                    forall|s: int|
                        0 <= s < crate::SLOT_COUNT ==> meta_initialized(
                            #[trigger] text_meta@[s],
                            init_name_for(indices@.take(ii as int), ValueKind::Text, s),
                            s,
                        ),
                    forall|s: int|
                        0 <= s < crate::SLOT_COUNT ==> meta_initialized(
                            #[trigger] ts_meta@[s],
                            init_name_for(indices@.take(ii as int), ValueKind::Timestamp, s),
                            s,
                        ),
                    forall|s: int|
                        0 <= s < crate::SLOT_COUNT ==> meta_initialized(
                            #[trigger] bool_meta@[s],
                            init_name_for(indices@.take(ii as int), ValueKind::Boolean, s),
                            s,
                        ),
                decreases indices@.len() - ii,
            {
                let ghost prefix = indices@.take(ii as int);
                proof {
                    assert(indices@.take(ii + 1) =~= prefix.push(indices@[ii as int]));
                    assert(indices@.take(ii + 1).drop_last() =~= prefix);
                }
                let entry = &indices[ii];
                match entry {
                    crate::models::IndexSlotName::Uint64 { slot, name } => {
                        if *slot >= crate::SLOT_COUNT {
                            return Result::Err(ContractError::SlotOutOfBounds { slot: *slot });
                        }
                        u64_meta[*slot as usize] = Option::Some(IndexMetadata::new(*slot, name));
                    },
                    crate::models::IndexSlotName::Uint128 { slot, name } => {
                        if *slot >= crate::SLOT_COUNT {
                            return Result::Err(ContractError::SlotOutOfBounds { slot: *slot });
                        }
                        u128_meta[*slot as usize] = Option::Some(IndexMetadata::new(*slot, name));
                    },
                    crate::models::IndexSlotName::Timestamp { slot, name } => {
                        if *slot >= crate::SLOT_COUNT {
                            return Result::Err(ContractError::SlotOutOfBounds { slot: *slot });
                        }
                        ts_meta[*slot as usize] = Option::Some(IndexMetadata::new(*slot, name));
                    },
                    crate::models::IndexSlotName::Text { slot, name } => {
                        if *slot >= crate::SLOT_COUNT {
                            return Result::Err(ContractError::SlotOutOfBounds { slot: *slot });
                        }
                        text_meta[*slot as usize] = Option::Some(IndexMetadata::new(*slot, name));
                    },
                    crate::models::IndexSlotName::Boolean { slot, name } => {
                        if *slot >= crate::SLOT_COUNT {
                            return Result::Err(ContractError::SlotOutOfBounds { slot: *slot });
                        }
                        bool_meta[*slot as usize] = Option::Some(IndexMetadata::new(*slot, name));
                    },
                }
                ii = ii + 1;
            }
            proof {
                assert(indices@.take(indices@.len() as int) =~= indices@);
            }
        }
        let reg = Registry {
            created_by: sender,
            acl_address: match &msg.acl_address {
                Option::None => Option::None,
                Option::Some(a) => Option::Some(a.clone()),
            },
            default_label: match &msg.default_label {
                Option::None => Option::None,
                Option::Some(l) => Option::Some(l.clone()),
            },
            default_code_id,
            allowed_code_ids: allowed,
            count: 0,
            next_id: 0,
            id_to_addr: IdMap::new(),
            addr_to_id: StrMap::new(),
            metadata: IdMap::new(),
            id_to_values: IdMap::new(),
            u64_tables,
            u128_tables,
            text_tables,
            ts_tables,
            bool_tables,
            u64_meta,
            u128_meta,
            text_meta,
            ts_meta,
            bool_meta,
            ix_created_at: IndexTable::new(),
            ix_updated_at: IndexTable::new(),
            ix_rev: IndexTable::new(),
            ix_code_id: IndexTable::new(),
            ix_height: IndexTable::new(),
            ix_created_by: IndexTable::new(),
            ix_address: IndexTable::new(),
            tags: IndexTable::new(),
            tags_size: 0,
            relationships: IndexTable::new(),
            relationships_size: 0,
            presets: PresetMap::new(),
        };
        proof {
            assert(reg.wf()) by {
                assert(reg.slots_wf());
                assert(reg.containers_wf());
                assert(reg.values_wf());
                assert(reg.sync_invariant()) by {
                    assert forall|s: int|
                        0 <= s < crate::SLOT_COUNT implies #[trigger] reg.u64_slot_synced(s) by {
                        assert(reg.u64_tables@[s]@.len() == 0);
                    }
                    assert forall|s: int|
                        0 <= s < crate::SLOT_COUNT implies #[trigger] reg.u128_slot_synced(s) by {
                        assert(reg.u128_tables@[s]@.len() == 0);
                    }
                    assert forall|s: int|
                        0 <= s < crate::SLOT_COUNT implies #[trigger] reg.text_slot_synced(s) by {
                        assert(reg.text_tables@[s]@.len() == 0);
                    }
                    assert forall|s: int|
                        0 <= s < crate::SLOT_COUNT implies #[trigger] reg.ts_slot_synced(s) by {
                        assert(reg.ts_tables@[s]@.len() == 0);
                    }
                    assert forall|s: int|
                        0 <= s < crate::SLOT_COUNT implies #[trigger] reg.bool_slot_synced(s) by {
                        assert(reg.bool_tables@[s]@.len() == 0);
                    }
                }
                assert(reg.size_invariant());
                assert(reg.binding_invariant());
                assert(reg.builtin_invariant());
            }
        }
        Result::Ok(reg)
    }
}


impl Registry {
    /// The metadata slot of a kind.
    pub open spec fn meta_of(self, kind: ValueKind, s: int) -> Option<IndexMetadata> {
        match kind {
            ValueKind::Uint64 => self.u64_meta@[s],
            ValueKind::Uint128 => self.u128_meta@[s],
            ValueKind::Text => self.text_meta@[s],
            ValueKind::Timestamp => self.ts_meta@[s],
            ValueKind::Boolean => self.bool_meta@[s],
        }
    }

    /// Whether two registries differ at most in the metadata vector of
    /// `kind`, and there at most in slot `s`.
    pub open spec fn meta_frame(pre: Registry, post: Registry, kind: ValueKind, s: int) -> bool {
        &&& post == (Registry {
            u64_meta: post.u64_meta,
            u128_meta: post.u128_meta,
            text_meta: post.text_meta,
            ts_meta: post.ts_meta,
            bool_meta: post.bool_meta,
            ..pre
        })
        &&& (kind == ValueKind::Uint64 ==> post.u64_meta@ == pre.u64_meta@.update(
            s,
            post.u64_meta@[s],
        ))
        &&& (kind != ValueKind::Uint64 ==> post.u64_meta@ == pre.u64_meta@)
        &&& (kind == ValueKind::Uint128 ==> post.u128_meta@ == pre.u128_meta@.update(
            s,
            post.u128_meta@[s],
        ))
        &&& (kind != ValueKind::Uint128 ==> post.u128_meta@ == pre.u128_meta@)
        &&& (kind == ValueKind::Text ==> post.text_meta@ == pre.text_meta@.update(
            s,
            post.text_meta@[s],
        ))
        &&& (kind != ValueKind::Text ==> post.text_meta@ == pre.text_meta@)
        &&& (kind == ValueKind::Timestamp ==> post.ts_meta@ == pre.ts_meta@.update(
            s,
            post.ts_meta@[s],
        ))
        &&& (kind != ValueKind::Timestamp ==> post.ts_meta@ == pre.ts_meta@)
        &&& (kind == ValueKind::Boolean ==> post.bool_meta@ == pre.bool_meta@.update(
            s,
            post.bool_meta@[s],
        ))
        &&& (kind != ValueKind::Boolean ==> post.bool_meta@ == pre.bool_meta@)
    }

    /// The custom table of a 64-bit integer slot.
    pub fn get_u64_index(&self, slot: u8) -> (r: Result<&IndexTable, ContractError>)
        requires
            self.slots_wf(),
        ensures
            match r {
                Result::Ok(t) => slot < crate::SLOT_COUNT && *t == self.u64_tables@[slot as int],
                Result::Err(e) => slot >= crate::SLOT_COUNT && e == (
                ContractError::SlotOutOfBounds { slot }),
            },
    {
        if slot >= crate::SLOT_COUNT {
            return Result::Err(ContractError::SlotOutOfBounds { slot });
        }
        Result::Ok(&self.u64_tables[slot as usize])
    }

    /// The custom table of a 128-bit integer slot.
    pub fn get_u128_index(&self, slot: u8) -> (r: Result<&IndexTable, ContractError>)
        requires
            self.slots_wf(),
        ensures
            match r {
                Result::Ok(t) => slot < crate::SLOT_COUNT && *t == self.u128_tables@[slot as int],
                Result::Err(e) => slot >= crate::SLOT_COUNT && e == (
                ContractError::SlotOutOfBounds { slot }),
            },
    {
        if slot >= crate::SLOT_COUNT {
            return Result::Err(ContractError::SlotOutOfBounds { slot });
        }
        Result::Ok(&self.u128_tables[slot as usize])
    }

    /// The custom table of a text slot.
    pub fn get_text_index(&self, slot: u8) -> (r: Result<&IndexTable, ContractError>)
        requires
            self.slots_wf(),
        ensures
            match r {
                Result::Ok(t) => slot < crate::SLOT_COUNT && *t == self.text_tables@[slot as int],
                Result::Err(e) => slot >= crate::SLOT_COUNT && e == (
                ContractError::SlotOutOfBounds { slot }),
            },
    {
        if slot >= crate::SLOT_COUNT {
            return Result::Err(ContractError::SlotOutOfBounds { slot });
        }
        Result::Ok(&self.text_tables[slot as usize])
    }

    /// The custom table of a timestamp slot.
    pub fn get_timestamp_index(&self, slot: u8) -> (r: Result<&IndexTable, ContractError>)
        requires
            self.slots_wf(),
        ensures
            match r {
                Result::Ok(t) => slot < crate::SLOT_COUNT && *t == self.ts_tables@[slot as int],
                Result::Err(e) => slot >= crate::SLOT_COUNT && e == (
                ContractError::SlotOutOfBounds { slot }),
            },
    {
        if slot >= crate::SLOT_COUNT {
            return Result::Err(ContractError::SlotOutOfBounds { slot });
        }
        Result::Ok(&self.ts_tables[slot as usize])
    }

    /// The custom table of a boolean slot.
    pub fn get_bool_index(&self, slot: u8) -> (r: Result<&IndexTable, ContractError>)
        requires
            self.slots_wf(),
        ensures
            match r {
                Result::Ok(t) => slot < crate::SLOT_COUNT && *t == self.bool_tables@[slot as int],
                Result::Err(e) => slot >= crate::SLOT_COUNT && e == (
                ContractError::SlotOutOfBounds { slot }),
            },
    {
        if slot >= crate::SLOT_COUNT {
            return Result::Err(ContractError::SlotOutOfBounds { slot });
        }
        Result::Ok(&self.bool_tables[slot as usize])
    }

    /// Whether the given address was created through this registry and
    /// still lives in it.
    pub fn owns_contract(&self, contract_addr: &String) -> (r: bool)
        requires
            self.addr_to_id.wf(),
        ensures
            r == self.addr_to_id@.contains_key(contract_addr@),
    {
        self.addr_to_id.contains_key(contract_addr)
    }

    /// The id bound to an address, or `NotFound`.
    pub fn get_contract_id(&self, contract_addr: &String) -> (r: Result<u64, ContractError>)
        requires
            self.addr_to_id.wf(),
        ensures
            match r {
                Result::Ok(id) => self.addr_to_id@.contains_key(contract_addr@) && id
                    == self.addr_to_id@[contract_addr@],
                Result::Err(e) => !self.addr_to_id@.contains_key(contract_addr@) && e == (
                ContractError::NotFound),
            },
    {
        match self.addr_to_id.get(contract_addr) {
            Option::Some(id) => Result::Ok(*id),
            Option::None => Result::Err(ContractError::NotFound),
        }
    }

    /// Hands out the next item id: returns the counter and advances it,
    /// counting one more live item.
    pub fn get_next_contract_id(&mut self) -> (r: u64)
        requires
            old(self).next_id < u64::MAX,
            old(self).count < u64::MAX,
        ensures
            r == old(self).next_id,
            final(self).next_id == old(self).next_id + 1,
            final(self).count == old(self).count + 1,
            *final(self) == (Registry {
                next_id: final(self).next_id,
                count: final(self).count,
                ..*old(self)
            }),
    {
        let id = self.next_id;
        self.next_id = self.next_id + 1;
        self.count = self.count + 1;
        id
    }

    /// Whether a principal may act: the access-control contract's
    /// answer if one is configured, else only the registry's creator.
    pub open spec fn spec_is_allowed(self, principal: Seq<char>, acl_decision: Option<bool>) -> bool {
        if self.acl_address is Some {
            acl_decision == Option::Some(true)
        } else {
            principal == self.created_by@
        }
    }

    /// Decides authorization from the configured policy and the
    /// access-control contract's answer, which the host queries when an
    /// access-control address is configured.
    pub fn is_allowed(&self, principal: &String, acl_decision: Option<bool>) -> (r: bool)
        ensures
            r == self.spec_is_allowed(principal@, acl_decision),
    {
        if self.acl_address.is_some() {
            match acl_decision {
                Option::Some(b) => b,
                Option::None => false,
            }
        } else {
            self.created_by == *principal
        }
    }

    /// Counts one more live entry in an initialized slot.
    pub fn increment_index_size(&mut self, kind: ValueKind, slot: u8) -> (r: Result<
        IndexMetadata,
        ContractError,
    >)
        requires
            old(self).slots_wf(),
            old(self).meta_of(kind, slot as int) matches Option::Some(m) ==> m@.size < u64::MAX,
        ensures
            final(self).slots_wf(),
            match r {
                Result::Ok(m) => {
                    &&& slot < crate::SLOT_COUNT
                    &&& old(self).meta_of(kind, slot as int) matches Option::Some(om)
                    &&& m@ == (crate::models::MetaView { size: (om@.size + 1) as u64, ..om@ })
                    &&& final(self).meta_of(kind, slot as int) matches Option::Some(nm)
                    &&& nm@ == m@
                    &&& Registry::meta_frame(*old(self), *final(self), kind, slot as int)
                },
                Result::Err(e) => {
                    &&& *final(self) == *old(self)
                    &&& (slot >= crate::SLOT_COUNT ==> e == (ContractError::SlotOutOfBounds {
                        slot,
                    }))
                    &&& (slot < crate::SLOT_COUNT ==> e == ContractError::InvalidIndexSlot && old(
                        self,
                    ).meta_of(kind, slot as int) is None)
                },
            },
    {
        self.adjust_index_size(kind, slot, true)
    }

    /// Counts one live entry fewer in an initialized slot.
    pub fn decrement_index_size(&mut self, kind: ValueKind, slot: u8) -> (r: Result<
        IndexMetadata,
        ContractError,
    >)
        requires
            old(self).slots_wf(),
            old(self).meta_of(kind, slot as int) matches Option::Some(m) ==> m@.size >= 1,
        ensures
            final(self).slots_wf(),
            match r {
                Result::Ok(m) => {
                    &&& slot < crate::SLOT_COUNT
                    &&& old(self).meta_of(kind, slot as int) matches Option::Some(om)
                    &&& m@ == (crate::models::MetaView { size: (om@.size - 1) as u64, ..om@ })
                    &&& final(self).meta_of(kind, slot as int) matches Option::Some(nm)
                    &&& nm@ == m@
                    &&& Registry::meta_frame(*old(self), *final(self), kind, slot as int)
                },
                Result::Err(e) => {
                    &&& *final(self) == *old(self)
                    &&& (slot >= crate::SLOT_COUNT ==> e == (ContractError::SlotOutOfBounds {
                        slot,
                    }))
                    &&& (slot < crate::SLOT_COUNT ==> e == ContractError::InvalidIndexSlot && old(
                        self,
                    ).meta_of(kind, slot as int) is None)
                },
            },
    {
        self.adjust_index_size(kind, slot, false)
    }

    /// Read-modify-writes a slot's running size.
    fn adjust_index_size(&mut self, kind: ValueKind, slot: u8, increment: bool) -> (r: Result<
        IndexMetadata,
        ContractError,
    >)
        requires
            old(self).slots_wf(),
            increment ==> (old(self).meta_of(kind, slot as int) matches Option::Some(m)
                ==> m@.size < u64::MAX),
            !increment ==> (old(self).meta_of(kind, slot as int) matches Option::Some(m)
                ==> m@.size >= 1),
        ensures
            final(self).slots_wf(),
            match r {
                Result::Ok(m) => {
                    &&& slot < crate::SLOT_COUNT
                    &&& old(self).meta_of(kind, slot as int) matches Option::Some(om)
                    &&& m@ == (crate::models::MetaView {
                        size: if increment {
                            (om@.size + 1) as u64
                        } else {
                            (om@.size - 1) as u64
                        },
                        ..om@
                    })
                    &&& final(self).meta_of(kind, slot as int) matches Option::Some(nm)
                    &&& nm@ == m@
                    &&& Registry::meta_frame(*old(self), *final(self), kind, slot as int)
                },
                Result::Err(e) => {
                    &&& *final(self) == *old(self)
                    &&& (slot >= crate::SLOT_COUNT ==> e == (ContractError::SlotOutOfBounds {
                        slot,
                    }))
                    &&& (slot < crate::SLOT_COUNT ==> e == ContractError::InvalidIndexSlot && old(
                        self,
                    ).meta_of(kind, slot as int) is None)
                },
            },
    {
        if slot >= crate::SLOT_COUNT {
            return Result::Err(ContractError::SlotOutOfBounds { slot });
        }
        let s = slot as usize;
        let current: Option<IndexMetadata> = match kind {
            ValueKind::Uint64 => match &self.u64_meta[s] {
                Option::Some(m) => Option::Some(m.clone()),
                Option::None => Option::None,
            },
            ValueKind::Uint128 => match &self.u128_meta[s] {
                Option::Some(m) => Option::Some(m.clone()),
                Option::None => Option::None,
            },
            ValueKind::Text => match &self.text_meta[s] {
                Option::Some(m) => Option::Some(m.clone()),
                Option::None => Option::None,
            },
            ValueKind::Timestamp => match &self.ts_meta[s] {
                Option::Some(m) => Option::Some(m.clone()),
                Option::None => Option::None,
            },
            ValueKind::Boolean => match &self.bool_meta[s] {
                Option::Some(m) => Option::Some(m.clone()),
                Option::None => Option::None,
            },
        };
        let mut meta = match current {
            Option::Some(m) => m,
            Option::None => {
                return Result::Err(ContractError::InvalidIndexSlot);
            },
        };
        if increment {
            meta.size = meta.size + 1;
        } else {
            meta.size = meta.size - 1;
        }
        let stored = meta.clone();
        match kind {
            ValueKind::Uint64 => {
                self.u64_meta[s] = Option::Some(stored);
            },
            ValueKind::Uint128 => {
                self.u128_meta[s] = Option::Some(stored);
            },
            ValueKind::Text => {
                self.text_meta[s] = Option::Some(stored);
            },
            ValueKind::Timestamp => {
                self.ts_meta[s] = Option::Some(stored);
            },
            ValueKind::Boolean => {
                self.bool_meta[s] = Option::Some(stored);
            },
        }
        proof {
            assert(Registry::meta_frame(*old(self), *self, kind, slot as int));
        }
        Result::Ok(meta)
    }

    /// Records the most recent mutation of a slot for observability.
    pub fn update_index_metadata(
        &mut self,
        kind: ValueKind,
        slot: u8,
        prefix: crate::models::IndexPrefix,
        contract_id: u64,
        now: u64,
    ) -> (r: Result<IndexMetadata, ContractError>)
        requires
            old(self).slots_wf(),
        ensures
            final(self).slots_wf(),
            match r {
                Result::Ok(m) => {
                    &&& slot < crate::SLOT_COUNT
                    &&& old(self).meta_of(kind, slot as int) matches Option::Some(om)
                    &&& m@ == (crate::models::MetaView {
                        updated_at: Option::Some(now),
                        updated_key: Option::Some((prefix@, contract_id)),
                        ..om@
                    })
                    &&& final(self).meta_of(kind, slot as int) matches Option::Some(nm)
                    &&& nm@ == m@
                    &&& Registry::meta_frame(*old(self), *final(self), kind, slot as int)
                },
                Result::Err(e) => {
                    &&& *final(self) == *old(self)
                    &&& (slot >= crate::SLOT_COUNT ==> e == (ContractError::SlotOutOfBounds {
                        slot,
                    }))
                    &&& (slot < crate::SLOT_COUNT ==> e == ContractError::InvalidIndexSlot && old(
                        self,
                    ).meta_of(kind, slot as int) is None)
                },
            },
    {
        if slot >= crate::SLOT_COUNT {
            return Result::Err(ContractError::SlotOutOfBounds { slot });
        }
        let s = slot as usize;
        let current: Option<IndexMetadata> = match kind {
            ValueKind::Uint64 => match &self.u64_meta[s] {
                Option::Some(m) => Option::Some(m.clone()),
                Option::None => Option::None,
            },
            ValueKind::Uint128 => match &self.u128_meta[s] {
                Option::Some(m) => Option::Some(m.clone()),
                Option::None => Option::None,
            },
            ValueKind::Text => match &self.text_meta[s] {
                Option::Some(m) => Option::Some(m.clone()),
                Option::None => Option::None,
            },
            ValueKind::Timestamp => match &self.ts_meta[s] {
                Option::Some(m) => Option::Some(m.clone()),
                Option::None => Option::None,
            },
            ValueKind::Boolean => match &self.bool_meta[s] {
                Option::Some(m) => Option::Some(m.clone()),
                Option::None => Option::None,
            },
        };
        let mut meta = match current {
            Option::Some(m) => m,
            Option::None => {
                return Result::Err(ContractError::InvalidIndexSlot);
            },
        };
        meta.updated_at = Option::Some(now);
        meta.updated_key = Option::Some((prefix, contract_id));
        let stored = meta.clone();
        match kind {
            ValueKind::Uint64 => {
                self.u64_meta[s] = Option::Some(stored);
            },
            ValueKind::Uint128 => {
                self.u128_meta[s] = Option::Some(stored);
            },
            ValueKind::Text => {
                self.text_meta[s] = Option::Some(stored);
            },
            ValueKind::Timestamp => {
                self.ts_meta[s] = Option::Some(stored);
            },
            ValueKind::Boolean => {
                self.bool_meta[s] = Option::Some(stored);
            },
        }
        proof {
            assert(Registry::meta_frame(*old(self), *self, kind, slot as int));
        }
        Result::Ok(meta)
    }
}

} // verus!
