//! Messages the registry consumes and the responses it produces.

use vstd::prelude::*;

use crate::models::{
    AddressTag, ContractID, ContractMetadata, Cursor, IndexBounds, IndexMetadataView,
    IndexSlotName, IndexSlotValue, IndexedValues, InstantiationPreset, RelationshipUpdates,
    TagUpdates,
};

verus! {

/// What the registry is given at initialization.
#[derive(Debug)]
pub struct InstantiateMsg {
    pub acl_address: Option<String>,
    pub default_label: Option<String>,
    pub default_code_id: Option<u64>,
    pub code_ids: Vec<u64>,
    pub indices: Option<Vec<IndexSlotName>>,
}

/// Every mutating call the registry accepts.
#[derive(Debug)]
pub enum ExecuteMsg {
    Create {
        code_id: Option<u64>,
        msg: Option<Vec<u8>>,
        admin: Option<String>,
        label: Option<String>,
        indices: Option<Vec<IndexSlotValue>>,
        preset: Option<String>,
        save_as: Option<String>,
        tags: Option<Vec<String>>,
        relationships: Option<Vec<AddressTag>>,
    },
    RemovePreset { preset: String },
    Update {
        values: Option<Vec<IndexSlotValue>>,
        relationships: Option<RelationshipUpdates>,
        tags: Option<TagUpdates>,
    },
    Remove { contract_addr: String },
    RenameIndex { name: IndexSlotName },
    SetAcl { acl_contract_addr: String },
    UpdateAllowedCodeIds { code_ids: Vec<u64> },
}

/// Which set of items a read should scan.
#[derive(Debug)]
pub enum Target {
    /// A built-in or custom index with a bound specification.
    Index(IndexBounds),
    /// Items related to an address under a relation name.
    Relationship((String, String)),
    /// Items carrying a tag.
    Tag(String),
}

/// Every query the registry answers.
#[derive(Debug)]
pub enum QueryMsg {
    Count {},
    Read {
        target: Target,
        fields: Option<Vec<String>>,
        since: Option<Since>,
        limit: Option<u32>,
        desc: Option<bool>,
        cursor: Option<Cursor>,
        meta: Option<bool>,
        wallet: Option<String>,
    },
    Select { wallet: Option<String>, fields: Option<Vec<String>> },
    Values { contract_addr: String },
}

/// A freshness filter: only items changed after the given revision or
/// time are returned.
#[derive(Debug)]
pub enum Since {
    Rev(u64),
    /// Nanoseconds.
    Timestamp(u64),
}

/// How many items the registry counts as created and not removed.
#[derive(Debug, PartialEq, Eq, Structural)]
pub struct CountResponse {
    pub count: u64,
}

/// The current custom index values of one item.
#[derive(Debug)]
pub struct ValuesResponse {
    pub values: IndexedValues,
}

/// The registry state fields a select query asked for; a field that was
/// not asked for is `None`.
#[derive(Debug)]
pub struct SelectResponse {
    pub count: Option<u64>,
    pub created_by: Option<String>,
    pub default_label: Option<Option<String>>,
    pub default_code_id: Option<u64>,
    pub code_ids: Option<Vec<u64>>,
    pub acl_address: Option<Option<String>>,
    pub indices: Option<IndexMetadataView>,
    pub presets: Option<Vec<InstantiationPreset>>,
}

/// One item of a query page.
#[derive(Debug)]
pub struct EntityContractEnvelope {
    pub address: String,
    pub meta: Option<ContractMetadata>,
    /// State fetched from the managed contract itself; the registry
    /// leaves it empty and the host shell fills it in.
    pub state: Option<Vec<u8>>,
}

/// An ordered page of items and the cursor to resume after it, if the
/// page filled its limit.
#[derive(Debug)]
pub struct Page {
    pub page: Vec<EntityContractEnvelope>,
    pub cursor: Option<Cursor>,
}

/// The query the registry sends a managed contract when a read asks for
/// item state.
#[derive(Debug)]
pub enum ImplementorQueryMsg {
    Select { wallet: Option<String>, fields: Option<Vec<String>> },
}

} // verus!
