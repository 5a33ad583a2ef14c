//! Queries: counting, value lookup, state selection and ordered,
//! cursor-resumable reads.

use vstd::prelude::*;
use vstd::string::StringExecFns;

use crate::error::ContractError;
use crate::keys::{
    all_digits, dec_val, is_false_cursor, key_cursor_bytes, parse_bool_cursor, parse_dec,
    render_key, EntryView, IndexKey, KeyView,
};
use crate::models::{ContractMetadata, IndexBounds, IndexMetadata};
use crate::msg::{CountResponse, EntityContractEnvelope, Page, Since, Target, ValuesResponse};
use crate::state::{
    bool_key, make_bool_key, make_rel_key, make_text_key, rel_key, text_key, u128_key, u64_key,
    Registry,
};
use crate::table::{page_spec, IndexTable};

verus! {

/// The page size a read uses: the requested one clamped into the legal
/// range, or the default.
pub open spec fn limit_of(raw: Option<u32>) -> u32 {
    let l = match raw {
        Option::Some(v) => v,
        Option::None => crate::DEFAULT_LIMIT,
    };
    if l < crate::MIN_LIMIT {
        crate::MIN_LIMIT
    } else if l > crate::MAX_LIMIT {
        crate::MAX_LIMIT
    } else {
        l
    }
}

/// The key a numeric cursor value denotes, if its digits read back as
/// a number within the kind's range.
pub open spec fn num_cursor_key(bytes: Seq<u8>, max: u128) -> Option<KeyView> {
    if bytes.len() > 0 && all_digits(bytes) && dec_val(bytes) <= max {
        Option::Some(KeyView::Num(dec_val(bytes) as u128))
    } else {
        Option::None
    }
}

/// The compound key a cursor resumes after, for a numeric table.
pub open spec fn num_cursor(c: Option<(Seq<u8>, u64)>, max: u128) -> Option<EntryView> {
    match c {
        Option::None => Option::None,
        Option::Some(cc) => match num_cursor_key(cc.0, max) {
            Option::Some(k) => Option::Some((k, cc.1)),
            Option::None => Option::None,
        },
    }
}

/// The compound key a cursor resumes after, for a textual table.
pub open spec fn text_cursor(c: Option<(Seq<u8>, u64)>) -> Option<EntryView> {
    match c {
        Option::None => Option::None,
        Option::Some(cc) => Option::Some((KeyView::Text(cc.0), cc.1)),
    }
}

/// The compound key a cursor resumes after, for a boolean table.
pub open spec fn bool_cursor(c: Option<(Seq<u8>, u64)>) -> Option<EntryView> {
    match c {
        Option::None => Option::None,
        Option::Some(cc) => Option::Some(
            (
                KeyView::Num(
                    if is_false_cursor(cc.0) {
                        0
                    } else {
                        1
                    },
                ),
                cc.1,
            ),
        ),
    }
}

/// The model of an optional cursor argument.
pub open spec fn cursor_view(c: &Option<crate::models::Cursor>) -> Option<(Seq<u8>, u64)> {
    match c {
        Option::None => Option::None,
        Option::Some(cc) => Option::Some((cc.0@, cc.1)),
    }
}

/// Range bounds resolved from an equality or a between pair: equality
/// is inclusive on both ends, a between pair keeps its lower end and
/// excludes its upper end.
pub open spec fn num_range(
    equals: Option<u128>,
    between: Option<(Option<u128>, Option<u128>)>,
) -> (Option<KeyView>, Option<KeyView>, bool) {
    match equals {
        Option::Some(v) => (
            Option::Some(KeyView::Num(v)),
            Option::Some(KeyView::Num(v)),
            true,
        ),
        Option::None => match between {
            Option::Some(b) => (
                match b.0 {
                    Option::Some(l) => Option::Some(KeyView::Num(l)),
                    Option::None => Option::None,
                },
                match b.1 {
                    Option::Some(u) => Option::Some(KeyView::Num(u)),
                    Option::None => Option::None,
                },
                false,
            ),
            Option::None => (Option::None, Option::None, false),
        },
    }
}

/// Range bounds for a textual index.
pub open spec fn text_range(
    equals: Option<Seq<char>>,
    between: Option<(Option<Seq<char>>, Option<Seq<char>>)>,
) -> (Option<KeyView>, Option<KeyView>, bool) {
    match equals {
        Option::Some(v) => (
            Option::Some(text_key(v)),
            Option::Some(text_key(v)),
            true,
        ),
        Option::None => match between {
            Option::Some(b) => (
                match b.0 {
                    Option::Some(l) => Option::Some(text_key(l)),
                    Option::None => Option::None,
                },
                match b.1 {
                    Option::Some(u) => Option::Some(text_key(u)),
                    Option::None => Option::None,
                },
                false,
            ),
            Option::None => (Option::None, Option::None, false),
        },
    }
}

/// The model of an optional pair of optional u64 bounds.
pub open spec fn u64_between_view(b: &Option<(Option<u64>, Option<u64>)>) -> Option<
    (Option<u128>, Option<u128>),
> {
    match b {
        Option::None => Option::None,
        Option::Some(p) => Option::Some(
            (
                match p.0 {
                    Option::Some(l) => Option::Some(l as u128),
                    Option::None => Option::None,
                },
                match p.1 {
                    Option::Some(u) => Option::Some(u as u128),
                    Option::None => Option::None,
                },
            ),
        ),
    }
}

/// The model of an optional u64 equality bound.
pub open spec fn u64_equals_view(e: &Option<u64>) -> Option<u128> {
    match e {
        Option::Some(v) => Option::Some(v as u128),
        Option::None => Option::None,
    }
}

/// The model of an optional pair of optional u128 bounds.
pub open spec fn u128_between_view(b: &Option<(Option<u128>, Option<u128>)>) -> Option<
    (Option<u128>, Option<u128>),
> {
    match b {
        Option::None => Option::None,
        Option::Some(p) => Option::Some((p.0, p.1)),
    }
}

/// The model of an optional pair of optional string bounds.
pub open spec fn str_between_view(b: &Option<(Option<String>, Option<String>)>) -> Option<
    (Option<Seq<char>>, Option<Seq<char>>),
> {
    match b {
        Option::None => Option::None,
        Option::Some(p) => Option::Some(
            (
                match &p.0 {
                    Option::Some(l) => Option::Some(l@),
                    Option::None => Option::None,
                },
                match &p.1 {
                    Option::Some(u) => Option::Some(u@),
                    Option::None => Option::None,
                },
            ),
        ),
    }
}

/// The model of an optional string equality bound.
pub open spec fn str_equals_view(e: &Option<String>) -> Option<Seq<char>> {
    match e {
        Option::Some(v) => Option::Some(v@),
        Option::None => Option::None,
    }
}

/// What a read target resolves to: the table to scan, the value range,
/// and the cursor's compound key; or nothing when the target names a
/// slot at or beyond the bank.
pub open spec fn resolve_target(
    reg: Registry,
    target: &Target,
    cursor: Option<(Seq<u8>, u64)>,
) -> Option<(Seq<EntryView>, Option<KeyView>, Option<KeyView>, bool, Option<EntryView>)> {
    match target {
        Target::Tag(tag) => Option::Some(
            (
                reg.tags@,
                Option::Some(text_key(tag@)),
                Option::Some(text_key(tag@)),
                true,
                text_cursor(cursor),
            ),
        ),
        Target::Relationship(pair) => Option::Some(
            (
                reg.relationships@,
                Option::Some(rel_key(pair.0@, pair.1@)),
                Option::Some(rel_key(pair.0@, pair.1@)),
                true,
                text_cursor(cursor),
            ),
        ),
        Target::Index(bounds) => match bounds {
            IndexBounds::CodeId { between, equals } => {
                let r = num_range(u64_equals_view(equals), u64_between_view(between));
                Option::Some((reg.ix_code_id@, r.0, r.1, r.2, num_cursor(cursor, u64::MAX as u128)))
            },
            IndexBounds::Height { between, equals } => {
                let r = num_range(u64_equals_view(equals), u64_between_view(between));
                Option::Some((reg.ix_height@, r.0, r.1, r.2, num_cursor(cursor, u64::MAX as u128)))
            },
            IndexBounds::Rev { between, equals } => {
                let r = num_range(u64_equals_view(equals), u64_between_view(between));
                Option::Some((reg.ix_rev@, r.0, r.1, r.2, num_cursor(cursor, u64::MAX as u128)))
            },
            IndexBounds::CreatedAt { between, equals } => {
                let r = num_range(u64_equals_view(equals), u64_between_view(between));
                Option::Some(
                    (reg.ix_created_at@, r.0, r.1, r.2, num_cursor(cursor, u64::MAX as u128)),
                )
            },
            IndexBounds::UpdatedAt { between, equals } => {
                let r = num_range(u64_equals_view(equals), u64_between_view(between));
                Option::Some(
                    (reg.ix_updated_at@, r.0, r.1, r.2, num_cursor(cursor, u64::MAX as u128)),
                )
            },
            IndexBounds::Address { between, equals } => {
                let r = text_range(str_equals_view(equals), str_between_view(between));
                Option::Some((reg.ix_address@, r.0, r.1, r.2, text_cursor(cursor)))
            },
            IndexBounds::CreatedBy { between, equals } => {
                let r = text_range(str_equals_view(equals), str_between_view(between));
                Option::Some((reg.ix_created_by@, r.0, r.1, r.2, text_cursor(cursor)))
            },
            IndexBounds::Uint64 { slot, between, equals } => {
                if slot >= crate::SLOT_COUNT {
                    Option::None
                } else {
                    let r = num_range(u64_equals_view(equals), u64_between_view(between));
                    Option::Some(
                        (
                            reg.u64_tables@[slot as int]@,
                            r.0,
                            r.1,
                            r.2,
                            num_cursor(cursor, u64::MAX as u128),
                        ),
                    )
                }
            },
            IndexBounds::Timestamp { slot, between, equals } => {
                if slot >= crate::SLOT_COUNT {
                    Option::None
                } else {
                    let r = num_range(u64_equals_view(equals), u64_between_view(between));
                    Option::Some(
                        (
                            reg.ts_tables@[slot as int]@,
                            r.0,
                            r.1,
                            r.2,
                            num_cursor(cursor, u64::MAX as u128),
                        ),
                    )
                }
            },
            IndexBounds::Uint128 { slot, between, equals } => {
                if slot >= crate::SLOT_COUNT {
                    Option::None
                } else {
                    let r = num_range(*equals, u128_between_view(between));
                    Option::Some(
                        (
                            reg.u128_tables@[slot as int]@,
                            r.0,
                            r.1,
                            r.2,
                            num_cursor(cursor, u128::MAX),
                        ),
                    )
                }
            },
            IndexBounds::Text { slot, between, equals } => {
                if slot >= crate::SLOT_COUNT {
                    Option::None
                } else {
                    let r = text_range(str_equals_view(equals), str_between_view(between));
                    Option::Some(
                        (reg.text_tables@[slot as int]@, r.0, r.1, r.2, text_cursor(cursor)),
                    )
                }
            },
            IndexBounds::Boolean { slot, start, stop } => {
                if slot >= crate::SLOT_COUNT {
                    Option::None
                } else {
                    Option::Some(
                        (
                            reg.bool_tables@[slot as int]@,
                            match start {
                                Option::Some(b) => Option::Some(
                                    bool_key(
                                        if *b {
                                            1
                                        } else {
                                            0
                                        },
                                    ),
                                ),
                                Option::None => Option::None,
                            },
                            match stop {
                                Option::Some(b) => Option::Some(
                                    bool_key(
                                        if *b {
                                            1
                                        } else {
                                            0
                                        },
                                    ),
                                ),
                                Option::None => Option::None,
                            },
                            false,
                            bool_cursor(cursor),
                        ),
                    )
                }
            },
        },
    }
}

/// Whether an item passes the freshness filter.
pub open spec fn since_keep(reg: Registry, id: u64, since: &Option<Since>) -> bool {
    match since {
        Option::None => true,
        Option::Some(Since::Rev(rv)) => reg.metadata@[id].rev > *rv,
        Option::Some(Since::Timestamp(t)) => reg.metadata@[id].updated_at > *t,
    }
}

/// The model of one page envelope.
pub open spec fn env_view(e: EntityContractEnvelope) -> (Seq<char>, Option<ContractMetadata>) {
    (
        e.address@,
        match e.meta {
            Option::Some(m) => Option::Some(m),
            Option::None => Option::None,
        },
    )
}

/// The models of a page of envelopes.
pub open spec fn env_views(v: Seq<EntityContractEnvelope>) -> Seq<
    (Seq<char>, Option<ContractMetadata>),
> {
    Seq::new(v.len(), |i: int| env_view(v[i]))
}

/// The envelope a scanned compound key produces.
pub open spec fn envelope_of(reg: Registry, e: EntryView, want_meta: bool) -> (
    Seq<char>,
    Option<ContractMetadata>,
) {
    (
        reg.id_to_addr@[e.1],
        if want_meta {
            Option::Some(reg.metadata@[e.1])
        } else {
            Option::None
        },
    )
}

/// The envelopes of a page: the scanned entries that pass the
/// freshness filter, in scan order.
pub open spec fn read_envelopes(
    reg: Registry,
    entries: Seq<EntryView>,
    since: &Option<Since>,
    want_meta: bool,
) -> Seq<(Seq<char>, Option<ContractMetadata>)> {
    entries.filter(|e: EntryView| since_keep(reg, e.1, since)).map(
        |_i: int, e: EntryView| envelope_of(reg, e, want_meta),
    )
}

impl Registry {
    /// How many items live in the registry.
    pub fn count(&self) -> (r: CountResponse)
        ensures
            r.count == self.count,
    {
        CountResponse { count: self.count }
    }

    /// The current custom index values of an item, by address.
    pub fn values(&self, contract_addr: &String) -> (r: Result<ValuesResponse, ContractError>)
        requires
            self.wf(),
        ensures
            match r {
                Result::Ok(v) => self.addr_to_id@.contains_key(contract_addr@) && v.values@
                    == self.id_to_values@[self.addr_to_id@[contract_addr@]],
                Result::Err(e) => !self.addr_to_id@.contains_key(contract_addr@) && e == (
                ContractError::NotFound),
            },
    {
        let id = match self.addr_to_id.get(contract_addr) {
            Option::Some(v) => *v,
            Option::None => {
                return Result::Err(ContractError::NotFound);
            },
        };
        let rec = self.id_to_values.get(id).unwrap();
        Result::Ok(ValuesResponse { values: rec.clone() })
    }
}



/// The model of an optional owned key.
pub open spec fn opt_owned_key_view(o: Option<IndexKey>) -> Option<KeyView> {
    match o {
        Option::None => Option::None,
        Option::Some(k) => Option::Some(k@),
    }
}

/// The model of an optional owned cursor pair.
pub open spec fn opt_pair_view(o: Option<(IndexKey, u64)>) -> Option<EntryView> {
    match o {
        Option::None => Option::None,
        Option::Some(p) => Option::Some((p.0@, p.1)),
    }
}

/// Reads a numeric cursor: its digits, bounded by the kind's range.
fn parse_num_cursor(c: &Option<crate::models::Cursor>, max: u128) -> (r: Option<(IndexKey, u64)>)
    ensures
        opt_pair_view(r) == num_cursor(cursor_view(c), max),
{
    match c {
        Option::None => Option::None,
        Option::Some(cc) => match parse_dec(&cc.0, max) {
            Option::Some(v) => Option::Some((IndexKey::Num(v), cc.1)),
            Option::None => Option::None,
        },
    }
}

/// Reads a textual cursor: the bytes themselves.
fn parse_text_cursor(c: &Option<crate::models::Cursor>) -> (r: Option<(IndexKey, u64)>)
    ensures
        opt_pair_view(r) == text_cursor(cursor_view(c)),
{
    match c {
        Option::None => Option::None,
        Option::Some(cc) => Option::Some((IndexKey::Text(cc.0.clone()), cc.1)),
    }
}

/// Reads a boolean cursor: 0 for `0`/"false", 1 for anything else.
fn parse_bool_cursor_key(c: &Option<crate::models::Cursor>) -> (r: Option<(IndexKey, u64)>)
    ensures
        opt_pair_view(r) == bool_cursor(cursor_view(c)),
{
    match c {
        Option::None => Option::None,
        Option::Some(cc) => {
            let v = parse_bool_cursor(&cc.0);
            Option::Some((IndexKey::Num(v), cc.1))
        },
    }
}

/// Builds the numeric range bounds of an equality or between pair.
fn make_num_range(equals: Option<u128>, between: Option<(Option<u128>, Option<u128>)>) -> (r: (
    Option<IndexKey>,
    Option<IndexKey>,
    bool,
))
    ensures
        ({
            let spec = num_range(equals, between);
            &&& opt_owned_key_view(r.0) == spec.0
            &&& opt_owned_key_view(r.1) == spec.1
            &&& r.2 == spec.2
        }),
{
    match equals {
        Option::Some(v) => (
            Option::Some(IndexKey::Num(v)),
            Option::Some(IndexKey::Num(v)),
            true,
        ),
        Option::None => match between {
            Option::Some(b) => (
                match b.0 {
                    Option::Some(l) => Option::Some(IndexKey::Num(l)),
                    Option::None => Option::None,
                },
                match b.1 {
                    Option::Some(u) => Option::Some(IndexKey::Num(u)),
                    Option::None => Option::None,
                },
                false,
            ),
            Option::None => (Option::None, Option::None, false),
        },
    }
}

/// Builds the textual range bounds of an equality or between pair.
fn make_text_range(equals: &Option<String>, between: &Option<(Option<String>, Option<String>)>)
    -> (r: (Option<IndexKey>, Option<IndexKey>, bool))
    ensures
        ({
            let spec = text_range(str_equals_view(equals), str_between_view(between));
            &&& opt_owned_key_view(r.0) == spec.0
            &&& opt_owned_key_view(r.1) == spec.1
            &&& r.2 == spec.2
        }),
{
    match equals {
        Option::Some(v) => (
            Option::Some(make_text_key(v.as_str())),
            Option::Some(make_text_key(v.as_str())),
            true,
        ),
        Option::None => match between {
            Option::Some(b) => (
                match &b.0 {
                    Option::Some(l) => Option::Some(make_text_key(l.as_str())),
                    Option::None => Option::None,
                },
                match &b.1 {
                    Option::Some(u) => Option::Some(make_text_key(u.as_str())),
                    Option::None => Option::None,
                },
                false,
            ),
            Option::None => (Option::None, Option::None, false),
        },
    }
}

/// Widens optional 64-bit bounds to the numeric key range.
fn widen_between(b: &Option<(Option<u64>, Option<u64>)>) -> (r: Option<
    (Option<u128>, Option<u128>),
>)
    ensures
        r == u64_between_view(b),
{
    match b {
        Option::None => Option::None,
        Option::Some(p) => Option::Some(
            (
                match p.0 {
                    Option::Some(l) => Option::Some(l as u128),
                    Option::None => Option::None,
                },
                match p.1 {
                    Option::Some(u) => Option::Some(u as u128),
                    Option::None => Option::None,
                },
            ),
        ),
    }
}

/// Widens an optional 64-bit equality to the numeric key range.
fn widen_equals(e: &Option<u64>) -> (r: Option<u128>)
    ensures
        r == u64_equals_view(e),
{
    match e {
        Option::Some(v) => Option::Some(*v as u128),
        Option::None => Option::None,
    }
}


/// Whether a read must fail with `NotFound`: some scanned compound key
/// names an item id with no address binding.
pub open spec fn read_not_found(
    reg: Registry,
    target: &Target,
    cursorv: Option<(Seq<u8>, u64)>,
    descb: bool,
    limit: u32,
) -> bool {
    resolve_target(reg, target, cursorv) matches Option::Some(plan) && exists|i: int|
        0 <= i < page_spec(plan.0, plan.1, plan.2, plan.3, descb, limit as int, plan.4).len()
            && !reg.id_to_addr@.contains_key(
            #[trigger] page_spec(plan.0, plan.1, plan.2, plan.3, descb, limit as int, plan.4)[i].1,
        )
}

/// What a successful read returns: the envelopes of the scanned
/// entries that pass the freshness filter, each resolved to its
/// address, and the next cursor exactly when the page filled its
/// limit.
pub open spec fn read_ok(
    reg: Registry,
    target: &Target,
    cursorv: Option<(Seq<u8>, u64)>,
    descb: bool,
    limit: u32,
    since: &Option<Since>,
    want_meta: bool,
    p: Page,
) -> bool {
    resolve_target(reg, target, cursorv) matches Option::Some(plan) && {
        let entries = page_spec(plan.0, plan.1, plan.2, plan.3, descb, limit as int, plan.4);
        &&& forall|i: int|
            0 <= i < entries.len() ==> reg.id_to_addr@.contains_key((#[trigger] entries[i]).1)
        &&& env_views(p.page@) == read_envelopes(reg, entries, since, want_meta)
        &&& (entries.len() == limit ==> (p.cursor matches Option::Some(cc) && cc.0@
            == key_cursor_bytes(entries.last().0) && cc.1 == entries.last().1))
        &&& (entries.len() < limit ==> p.cursor is None)
    }
}

impl Registry {
    /// Resolves a read target to the table to scan, the value range
    /// and the cursor's compound key.
    fn resolve_plan(&self, target: &Target, cursor: &Option<crate::models::Cursor>) -> (r: Result<
        (&IndexTable, Option<IndexKey>, Option<IndexKey>, bool, Option<(IndexKey, u64)>),
        ContractError,
    >)
        requires
            self.slots_wf(),
        ensures
            match r {
                Result::Ok(p) => resolve_target(*self, target, cursor_view(cursor))
                    matches Option::Some(sp) && p.0@ == sp.0 && opt_owned_key_view(p.1) == sp.1
                    && opt_owned_key_view(p.2) == sp.2 && p.3 == sp.3 && opt_pair_view(p.4)
                    == sp.4,
                Result::Err(e) => resolve_target(*self, target, cursor_view(cursor)) is None && e
                    matches ContractError::SlotOutOfBounds { .. },
            },
    {
        let u64max: u128 = u64::MAX as u128;
        let plan: (&IndexTable, Option<IndexKey>, Option<IndexKey>, bool, Option<(IndexKey, u64)>) =
            match target {
            Target::Tag(tag) => {
                let k1 = make_text_key(tag.as_str());
                let k2 = make_text_key(tag.as_str());
                (&self.tags, Option::Some(k1), Option::Some(k2), true, parse_text_cursor(cursor))
            },
            Target::Relationship(pair) => {
                let k1 = make_rel_key(pair.0.as_str(), pair.1.as_str());
                let k2 = make_rel_key(pair.0.as_str(), pair.1.as_str());
                (
                    &self.relationships,
                    Option::Some(k1),
                    Option::Some(k2),
                    true,
                    parse_text_cursor(cursor),
                )
            },
            Target::Index(bounds) => match bounds {
                IndexBounds::CodeId { between, equals } => {
                    let rng = make_num_range(widen_equals(equals), widen_between(between));
                    (&self.ix_code_id, rng.0, rng.1, rng.2, parse_num_cursor(cursor, u64max))
                },
                IndexBounds::Height { between, equals } => {
                    let rng = make_num_range(widen_equals(equals), widen_between(between));
                    (&self.ix_height, rng.0, rng.1, rng.2, parse_num_cursor(cursor, u64max))
                },
                IndexBounds::Rev { between, equals } => {
                    let rng = make_num_range(widen_equals(equals), widen_between(between));
                    (&self.ix_rev, rng.0, rng.1, rng.2, parse_num_cursor(cursor, u64max))
                },
                IndexBounds::CreatedAt { between, equals } => {
                    let rng = make_num_range(widen_equals(equals), widen_between(between));
                    (&self.ix_created_at, rng.0, rng.1, rng.2, parse_num_cursor(cursor, u64max))
                },
                IndexBounds::UpdatedAt { between, equals } => {
                    let rng = make_num_range(widen_equals(equals), widen_between(between));
                    (&self.ix_updated_at, rng.0, rng.1, rng.2, parse_num_cursor(cursor, u64max))
                },
                IndexBounds::Address { between, equals } => {
                    let rng = make_text_range(equals, between);
                    (&self.ix_address, rng.0, rng.1, rng.2, parse_text_cursor(cursor))
                },
                IndexBounds::CreatedBy { between, equals } => {
                    let rng = make_text_range(equals, between);
                    (&self.ix_created_by, rng.0, rng.1, rng.2, parse_text_cursor(cursor))
                },
                IndexBounds::Uint64 { slot, between, equals } => {
                    let tbl = match self.get_u64_index(*slot) {
                        Result::Ok(t) => t,
                        Result::Err(e) => {
                            return Result::Err(e);
                        },
                    };
                    let rng = make_num_range(widen_equals(equals), widen_between(between));
                    (tbl, rng.0, rng.1, rng.2, parse_num_cursor(cursor, u64max))
                },
                IndexBounds::Timestamp { slot, between, equals } => {
                    let tbl = match self.get_timestamp_index(*slot) {
                        Result::Ok(t) => t,
                        Result::Err(e) => {
                            return Result::Err(e);
                        },
                    };
                    let rng = make_num_range(widen_equals(equals), widen_between(between));
                    (tbl, rng.0, rng.1, rng.2, parse_num_cursor(cursor, u64max))
                },
                IndexBounds::Uint128 { slot, between, equals } => {
                    let tbl = match self.get_u128_index(*slot) {
                        Result::Ok(t) => t,
                        Result::Err(e) => {
                            return Result::Err(e);
                        },
                    };
                    let b2: Option<(Option<u128>, Option<u128>)> = match between {
                        Option::None => Option::None,
                        Option::Some(p) => Option::Some((p.0, p.1)),
                    };
                    let rng = make_num_range(*equals, b2);
                    (tbl, rng.0, rng.1, rng.2, parse_num_cursor(cursor, u128::MAX))
                },
                IndexBounds::Text { slot, between, equals } => {
                    let tbl = match self.get_text_index(*slot) {
                        Result::Ok(t) => t,
                        Result::Err(e) => {
                            return Result::Err(e);
                        },
                    };
                    let rng = make_text_range(equals, between);
                    (tbl, rng.0, rng.1, rng.2, parse_text_cursor(cursor))
                },
                IndexBounds::Boolean { slot, start, stop } => {
                    let tbl = match self.get_bool_index(*slot) {
                        Result::Ok(t) => t,
                        Result::Err(e) => {
                            return Result::Err(e);
                        },
                    };
                    let lo = match start {
                        Option::Some(b) => Option::Some(
                            make_bool_key(
                                if *b {
                                    1
                                } else {
                                    0
                                },
                            ),
                        ),
                        Option::None => Option::None,
                    };
                    let hi = match stop {
                        Option::Some(b) => Option::Some(
                            make_bool_key(
                                if *b {
                                    1
                                } else {
                                    0
                                },
                            ),
                        ),
                        Option::None => Option::None,
                    };
                    (tbl, lo, hi, false, parse_bool_cursor_key(cursor))
                },
            },
        };
        Result::Ok(plan)
    }

    /// Answers a read: scans the targeted index in order over the
    /// requested value range, resumes strictly after the cursor if one
    /// is given, keeps at most the clamped limit of entries, drops
    /// items the freshness filter excludes, resolves each id to its
    /// address, and hands back the next cursor when the page filled
    /// its limit.
    #[verifier::rlimit(100)]
    pub fn read(
        &self,
        target: &Target,
        desc: Option<bool>,
        raw_limit: Option<u32>,
        since: &Option<Since>,
        meta: Option<bool>,
        cursor: &Option<crate::models::Cursor>,
    ) -> (r: Result<Page, ContractError>)
        requires
            self.wf(),
        ensures
            ({
                let descb = match desc {
                    Option::Some(d) => d,
                    Option::None => false,
                };
                let want_meta = match meta {
                    Option::Some(m) => m,
                    Option::None => false,
                };
                match r {
                    Result::Err(e) => match e {
                        ContractError::SlotOutOfBounds { .. } => resolve_target(
                            *self,
                            target,
                            cursor_view(cursor),
                        ) is None,
                        ContractError::NotFound => read_not_found(
                            *self,
                            target,
                            cursor_view(cursor),
                            descb,
                            limit_of(raw_limit),
                        ),
                        _ => false,
                    },
                    Result::Ok(p) => read_ok(
                        *self,
                        target,
                        cursor_view(cursor),
                        descb,
                        limit_of(raw_limit),
                        since,
                        want_meta,
                        p,
                    ),
                }
            }),
    {
        let descb = match desc {
            Option::Some(d) => d,
            Option::None => false,
        };
        let want_meta = match meta {
            Option::Some(m) => m,
            Option::None => false,
        };
        let mut limit: u32 = match raw_limit {
            Option::Some(v) => v,
            Option::None => crate::DEFAULT_LIMIT,
        };
        if limit < crate::MIN_LIMIT {
            limit = crate::MIN_LIMIT;
        }
        if limit > crate::MAX_LIMIT {
            limit = crate::MAX_LIMIT;
        }
        let plan = match self.resolve_plan(target, cursor) {
            Result::Ok(p) => p,
            Result::Err(e) => {
                return Result::Err(e);
            },
        };
        let (tbl, lo, hi, hi_incl, cur) = plan;
        let ghost spec_plan = resolve_target(*self, target, cursor_view(cursor))->0;
        let lo_ref = lo.as_ref();
        let hi_ref = hi.as_ref();
        let cur_ref = cur.as_ref();
        proof {
            assert(crate::table::opt_key_view(lo_ref) == spec_plan.1);
            assert(crate::table::opt_key_view(hi_ref) == spec_plan.2);
            assert(crate::table::opt_entry_view(cur_ref) == spec_plan.4);
        }
        let page_entries = tbl.select_page(lo_ref, hi_ref, hi_incl, descb, limit as usize, cur_ref);
        let ghost entries = crate::table::entries_view(page_entries@);
        proof {
            assert(limit == limit_of(raw_limit));
            assert(entries == page_spec(
                spec_plan.0,
                spec_plan.1,
                spec_plan.2,
                spec_plan.3,
                descb,
                limit_of(raw_limit) as int,
                spec_plan.4,
            ));
        }
        let mut out: Vec<EntityContractEnvelope> = Vec::new();
        proof {
            assert(entries.take(0) =~= Seq::<EntryView>::empty());
            assert(Seq::<EntryView>::empty().filter(
                |e: EntryView| since_keep(*self, e.1, since),
            ) =~= Seq::<EntryView>::empty()) by {
                reveal(Seq::filter);
            }
            assert(env_views(out@) =~= read_envelopes(*self, entries.take(0), since, want_meta));
        }
        let mut i: usize = 0;
        while i < page_entries.len()
            invariant
                i <= page_entries@.len(),
                self.wf(),
                entries == crate::table::entries_view(page_entries@),
                env_views(out@) == read_envelopes(*self, entries.take(i as int), since, want_meta),
                forall|j: int|
                    0 <= j < i ==> self.id_to_addr@.contains_key((#[trigger] entries[j]).1),
            decreases page_entries@.len() - i,
        {
            let id = page_entries[i].1;
            proof {
                assert(entries[i as int].1 == id);
            }
            let addr = match self.id_to_addr.get(id) {
                Option::Some(a) => a.clone(),
                Option::None => {
                    proof {
                        assert(!self.id_to_addr@.contains_key(
                            page_spec(
                                spec_plan.0,
                                spec_plan.1,
                                spec_plan.2,
                                spec_plan.3,
                                descb,
                                limit_of(raw_limit) as int,
                                spec_plan.4,
                            )[i as int].1,
                        ));
                        assert(read_not_found(
                            *self,
                            target,
                            cursor_view(cursor),
                            descb,
                            limit_of(raw_limit),
                        ));
                    }
                    return Result::Err(ContractError::NotFound);
                },
            };
            let keep = match since {
                Option::None => true,
                Option::Some(Since::Rev(rv)) => {
                    let m = self.metadata.get(id).unwrap();
                    m.rev > *rv
                },
                Option::Some(Since::Timestamp(t)) => {
                    let m = self.metadata.get(id).unwrap();
                    m.updated_at > *t
                },
            };
            let ghost pre_out = out@;
            if keep {
                let m: Option<ContractMetadata> = if want_meta {
                    Option::Some(*self.metadata.get(id).unwrap())
                } else {
                    Option::None
                };
                out.push(EntityContractEnvelope { address: addr, meta: m, state: Option::None });
            }
            proof {
                let p = |e: EntryView| since_keep(*self, e.1, since);
                let f = |_x: int, e: EntryView| envelope_of(*self, e, want_meta);
                let ev = entries[i as int];
                assert(entries.take(i + 1) =~= entries.take(i as int).push(ev));
                crate::table::lemma_filter_push(entries.take(i as int), ev, p);
                assert(keep == p(ev));
                if keep {
                    assert(entries.take(i as int).filter(p).push(ev).map(f) =~= entries.take(
                        i as int,
                    ).filter(p).map(f).push(f(0, ev)));
                    assert(env_views(out@) =~= env_views(pre_out).push(
                        envelope_of(*self, ev, want_meta),
                    ));
                }
                assert(env_views(out@) =~= read_envelopes(
                    *self,
                    entries.take(i + 1),
                    since,
                    want_meta,
                ));
            }
            i = i + 1;
        }
        proof {
            assert(entries.take(entries.len() as int) =~= entries);
        }
        let next_cursor: Option<crate::models::Cursor> = if page_entries.len() == limit as usize
            && page_entries.len() > 0 {
            let last = &page_entries[page_entries.len() - 1];
            proof {
                assert(entries.last() == entries[entries.len() - 1]);
            }
            Option::Some((render_key(&last.0), last.1))
        } else {
            Option::None
        };
        let page = Page { page: out, cursor: next_cursor };
        proof {
            assert(read_ok(
                *self,
                target,
                cursor_view(cursor),
                descb,
                limit_of(raw_limit),
                since,
                want_meta,
                page,
            ));
        }
        Result::Ok(page)
    }
}


/// Whether a field list asks for a field: an absent or empty list asks
/// for everything.
pub open spec fn wants(fields: &Option<Vec<String>>, name: Seq<char>) -> bool {
    match fields {
        Option::None => true,
        Option::Some(l) => l@.len() == 0 || exists|i: int|
            0 <= i < l@.len() && (#[trigger] l@[i])@ == name,
    }
}

/// The models of the initialized metadata records among a slot bank,
/// in slot order.
pub open spec fn meta_rows(s: Seq<Option<IndexMetadata>>) -> Seq<crate::models::MetaView>
    decreases s.len(),
{
    if s.len() == 0 {
        Seq::empty()
    } else {
        meta_rows(s.drop_last()) + (match s.last() {
            Option::Some(m) => seq![m@],
            Option::None => Seq::empty(),
        })
    }
}

/// The models of a row vector.
pub open spec fn rows_views(v: Seq<IndexMetadata>) -> Seq<crate::models::MetaView> {
    Seq::new(v.len(), |i: int| v[i]@)
}

/// Decides whether a field list asks for a field.
fn field_wanted(fields: &Option<Vec<String>>, name: &String) -> (r: bool)
    ensures
        r == wants(fields, name@),
{
    match fields {
        Option::None => true,
        Option::Some(l) => {
            if l.len() == 0 {
                return true;
            }
            let mut i: usize = 0;
            while i < l.len()
                invariant
                    i <= l@.len(),
                    forall|j: int| 0 <= j < i ==> (#[trigger] l@[j])@ != name@,
                decreases l@.len() - i,
            {
                if l[i] == *name {
                    assert(l@[i as int]@ == name@);
                    return true;
                }
                i = i + 1;
            }
            proof {
                if exists|j: int| 0 <= j < l@.len() && (#[trigger] l@[j])@ == name@ {
                    let j = choose|j: int| 0 <= j < l@.len() && (#[trigger] l@[j])@ == name@;
                    assert((l@[j])@ != name@);
                }
            }
            false
        },
    }
}

impl Registry {
    /// Collects the initialized metadata records of one kind's slots.
    fn collect_values(metas: &Vec<Option<IndexMetadata>>) -> (r: Vec<IndexMetadata>)
        ensures
            rows_views(r@) == meta_rows(metas@),
    {
        let mut out: Vec<IndexMetadata> = Vec::new();
        proof {
            assert(metas@.take(0) =~= Seq::<Option<IndexMetadata>>::empty());
            assert(rows_views(out@) =~= meta_rows(metas@.take(0)));
        }
        let mut i: usize = 0;
        while i < metas.len()
            invariant
                i <= metas@.len(),
                rows_views(out@) == meta_rows(metas@.take(i as int)),
            decreases metas@.len() - i,
        {
            let ghost pre = out@;
            proof {
                assert(metas@.take(i + 1).drop_last() =~= metas@.take(i as int));
                assert(metas@.take(i + 1).last() == metas@[i as int]);
            }
            match &metas[i] {
                Option::Some(m) => {
                    out.push(m.clone());
                    proof {
                        assert(rows_views(out@) =~= rows_views(pre).push(
                            metas@[i as int]->0@,
                        ));
                        assert(meta_rows(metas@.take(i + 1)) =~= meta_rows(
                            metas@.take(i as int),
                        ).push(metas@[i as int]->0@));
                    }
                },
                Option::None => {
                    proof {
                        assert(meta_rows(metas@.take(i + 1)) =~= meta_rows(metas@.take(i as int)));
                    }
                },
            }
            i = i + 1;
        }
        proof {
            assert(metas@.take(metas@.len() as int) =~= metas@);
        }
        out
    }

    /// Answers a select: loads exactly the asked-for registry state
    /// fields, every field when none are named.
    pub fn select(&self, fields: &Option<Vec<String>>, wallet: &Option<String>) -> (r:
        crate::msg::SelectResponse)
        requires
            self.wf(),
        ensures
            r.count == (if wants(fields, "count"@) {
                Option::Some(self.count)
            } else {
                Option::<u64>::None
            }),
            wants(fields, "created_by"@) ==> (r.created_by matches Option::Some(c) && c@
                == self.created_by@),
            !wants(fields, "created_by"@) ==> r.created_by is None,
            wants(fields, "default_label"@) ==> (r.default_label matches Option::Some(d)
                && crate::state::opt_str_view(d) == crate::state::opt_str_view(
                self.default_label,
            )),
            !wants(fields, "default_label"@) ==> r.default_label is None,
            r.default_code_id == (if wants(fields, "default_code_id"@) {
                Option::Some(self.default_code_id)
            } else {
                Option::<u64>::None
            }),
            wants(fields, "acl_address"@) ==> (r.acl_address matches Option::Some(a)
                && crate::state::opt_str_view(a) == crate::state::opt_str_view(
                self.acl_address,
            )),
            !wants(fields, "acl_address"@) ==> r.acl_address is None,
            wants(fields, "code_ids"@) ==> (r.code_ids matches Option::Some(c) && c@
                == self.allowed_code_ids@),
            !wants(fields, "code_ids"@) ==> r.code_ids is None,
            wants(fields, "indices"@) ==> (r.indices matches Option::Some(v) && rows_views(
                v.uint64@,
            ) == meta_rows(self.u64_meta@) && rows_views(v.uint128@) == meta_rows(self.u128_meta@)
                && rows_views(v.text@) == meta_rows(self.text_meta@) && rows_views(v.timestamp@)
                == meta_rows(self.ts_meta@) && rows_views(v.boolean@) == meta_rows(
                self.bool_meta@,
            )),
            !wants(fields, "indices"@) ==> r.indices is None,
            (wants(fields, "presets"@) && wallet is Some) ==> (r.presets
                matches Option::Some(l) && (forall|i: int|
                0 <= i < l@.len() ==> crate::maps::PresetMap::listed(
                    self.presets@,
                    wallet->0@,
                    (#[trigger] l@[i])@,
                )) && (forall|n: Seq<char>|
                self.presets@.contains_key((wallet->0@, n))
                    ==> crate::maps::PresetMap::includes(l@, self.presets@[(wallet->0@, n)]))),
            !(wants(fields, "presets"@) && wallet is Some) ==> r.presets is None,
    {
        let count = if field_wanted(fields, &String::from_str("count")) {
            Option::Some(self.count)
        } else {
            Option::None
        };
        let created_by = if field_wanted(fields, &String::from_str("created_by")) {
            Option::Some(self.created_by.clone())
        } else {
            Option::None
        };
        let default_label = if field_wanted(fields, &String::from_str("default_label")) {
            Option::Some(
                match &self.default_label {
                    Option::Some(d) => Option::Some(d.clone()),
                    Option::None => Option::None,
                },
            )
        } else {
            Option::None
        };
        let default_code_id = if field_wanted(fields, &String::from_str("default_code_id")) {
            Option::Some(self.default_code_id)
        } else {
            Option::None
        };
        let acl_address = if field_wanted(fields, &String::from_str("acl_address")) {
            Option::Some(
                match &self.acl_address {
                    Option::Some(a) => Option::Some(a.clone()),
                    Option::None => Option::None,
                },
            )
        } else {
            Option::None
        };
        let code_ids = if field_wanted(fields, &String::from_str("code_ids")) {
            Option::Some(self.allowed_code_ids.as_vec())
        } else {
            Option::None
        };
        let indices = if field_wanted(fields, &String::from_str("indices")) {
            Option::Some(
                crate::models::IndexMetadataView {
                    uint64: Self::collect_values(&self.u64_meta),
                    uint128: Self::collect_values(&self.u128_meta),
                    text: Self::collect_values(&self.text_meta),
                    timestamp: Self::collect_values(&self.ts_meta),
                    boolean: Self::collect_values(&self.bool_meta),
                },
            )
        } else {
            Option::None
        };
        let presets = if field_wanted(fields, &String::from_str("presets")) {
            match wallet {
                Option::Some(w) => Option::Some(self.presets.presets_of(w)),
                Option::None => Option::None,
            }
        } else {
            Option::None
        };
        crate::msg::SelectResponse {
            count,
            created_by,
            default_label,
            default_code_id,
            code_ids,
            acl_address,
            indices,
            presets,
        }
    }
}

} // verus!
