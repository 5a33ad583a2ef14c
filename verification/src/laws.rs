//! Laws the registry obeys, stated over the operation contracts.
//!
//! The size and sync invariants hold after every operation because
//! every mutating operation requires and ensures [`Registry::wf`];
//! keyset pagination completeness is
//! [`crate::table::lemma_pagination_completeness`].  This module states
//! the laws that relate several operations.

use vstd::prelude::*;

use crate::execute::{key_of_value, kind_of_value, set_slot, slot_of_value, slot_update_applied};
use crate::keys::{EntryView, KeyView};
use crate::models::IndexedValuesView;
use crate::state::{bool_key, text_key, u128_key, u64_key, Registry, ValueKind};
use crate::table::{entries_sorted, in_key_range, lemma_sorted_unique, page_spec};

verus! {

/// The custom index table of a kind and slot.
pub open spec fn table_of(reg: Registry, kind: ValueKind, s: int) -> Seq<EntryView> {
    match kind {
        ValueKind::Uint64 => reg.u64_tables@[s]@,
        ValueKind::Uint128 => reg.u128_tables@[s]@,
        ValueKind::Text => reg.text_tables@[s]@,
        ValueKind::Timestamp => reg.ts_tables@[s]@,
        ValueKind::Boolean => reg.bool_tables@[s]@,
    }
}

/// The compound-key value a values record holds in a kind and slot.
pub open spec fn stored_slot_key(vv: IndexedValuesView, kind: ValueKind, s: int) -> Option<
    KeyView,
> {
    match kind {
        ValueKind::Uint64 => match vv.uint64[s] {
            Option::Some(v) => Option::Some(u64_key(v)),
            Option::None => Option::None,
        },
        ValueKind::Uint128 => match vv.uint128[s] {
            Option::Some(v) => Option::Some(u128_key(v)),
            Option::None => Option::None,
        },
        ValueKind::Text => match vv.text[s] {
            Option::Some(v) => Option::Some(text_key(v)),
            Option::None => Option::None,
        },
        ValueKind::Timestamp => match vv.timestamp[s] {
            Option::Some(v) => Option::Some(u64_key(v)),
            Option::None => Option::None,
        },
        ValueKind::Boolean => match vv.boolean[s] {
            Option::Some(v) => Option::Some(bool_key(v)),
            Option::None => Option::None,
        },
    }
}

/// A well-formed registry holds a compound key in a custom table
/// exactly when the item's values record stores the matching value:
/// the sync invariant, read through one kind and slot.
pub proof fn lemma_sync_reading(reg: Registry, kind: ValueKind, s: int, k: KeyView, id: u64)
    requires
        reg.wf(),
        0 <= s < crate::SLOT_COUNT,
    ensures
        table_of(reg, kind, s).contains((k, id)) <==> (reg.id_to_values@.contains_key(id)
            && stored_slot_key(reg.id_to_values@[id], kind, s) == Option::Some(k)),
{
    match kind {
        ValueKind::Uint64 => {
            assert(reg.u64_slot_synced(s));
        },
        ValueKind::Uint128 => {
            assert(reg.u128_slot_synced(s));
        },
        ValueKind::Text => {
            assert(reg.text_slot_synced(s));
        },
        ValueKind::Timestamp => {
            assert(reg.ts_slot_synced(s));
        },
        ValueKind::Boolean => {
            assert(reg.bool_slot_synced(s));
        },
    }
}

/// In a well-formed registry every initialized slot's running size
/// counts exactly the live compound keys of its table: the size
/// invariant, read through one kind and slot.
pub proof fn lemma_size_counts_entries(reg: Registry, kind: ValueKind, s: int)
    requires
        reg.wf(),
        0 <= s < crate::SLOT_COUNT,
        reg.meta_of(kind, s) is Some,
    ensures
        reg.meta_of(kind, s)->0@.size == table_of(reg, kind, s).len(),
{
    match kind {
        ValueKind::Uint64 => {},
        ValueKind::Uint128 => {},
        ValueKind::Text => {},
        ValueKind::Timestamp => {},
        ValueKind::Boolean => {},
    }
}

/// Removing exactly one entry from a strictly sorted table shrinks it
/// by exactly one.
proof fn lemma_removed_one(a: Seq<EntryView>, b: Seq<EntryView>, t: EntryView)
    requires
        entries_sorted(a),
        entries_sorted(b),
        forall|e: EntryView| #[trigger] b.contains(e) <==> (a.contains(e) && e != t),
        a.contains(t),
    ensures
        b.len() == a.len() - 1,
{
    assert(a.no_duplicates()) by {
        assert forall|i: int, j: int| 0 <= i < a.len() && 0 <= j < a.len() && i != j implies a[i]
            != a[j] by {
            if a[i] == a[j] {
                lemma_sorted_unique(a, i, j);
            }
        }
    }
    assert(b.no_duplicates()) by {
        assert forall|i: int, j: int| 0 <= i < b.len() && 0 <= j < b.len() && i != j implies b[i]
            != b[j] by {
            if b[i] == b[j] {
                lemma_sorted_unique(b, i, j);
            }
        }
    }
    a.unique_seq_to_set();
    b.unique_seq_to_set();
    assert(b.to_set() =~= a.to_set().remove(t));
    assert(a.to_set().contains(t));
    assert(a.to_set().remove(t).len() == a.to_set().len() - 1);
}

/// Round trip: writing a value into a slot of an item and then
/// removing the item entirely leaves the slot's table without the
/// item's compound key, and shrinks the slot's running size by exactly
/// one relative to the state right after the write.
pub proof fn lemma_round_trip(
    s0: Registry,
    s1: Registry,
    s2: Registry,
    u: crate::models::SlotValueView,
    id: u64,
    now: u64,
)
    requires
        s0.wf(),
        s1.wf(),
        s2.wf(),
        slot_of_value(u) < crate::SLOT_COUNT,
        s0.id_to_values@.contains_key(id),
        // the write, as the update operation describes it
        slot_update_applied(s0, s1, u, id, now),
        // the removal, as the remove operation describes it
        s2.id_to_values@ == s1.id_to_values@.remove(id),
        forall|e: EntryView|
            #[trigger] table_of(s2, kind_of_value(u), slot_of_value(u) as int).contains(e) <==> (
            table_of(s1, kind_of_value(u), slot_of_value(u) as int).contains(e) && e.1 != id),
        s2.meta_of(kind_of_value(u), slot_of_value(u) as int) is Some,
    ensures
        !table_of(s2, kind_of_value(u), slot_of_value(u) as int).contains(
            (key_of_value(u), id),
        ),
        s2.meta_of(kind_of_value(u), slot_of_value(u) as int)->0@.size == s1.meta_of(
            kind_of_value(u),
            slot_of_value(u) as int,
        )->0@.size - 1,
{
    let kind = kind_of_value(u);
    let s = slot_of_value(u) as int;
    let t: EntryView = (key_of_value(u), id);
    let a = table_of(s1, kind, s);
    let b = table_of(s2, kind, s);
    // after the write, the item's record stores the value, so its
    // compound key is in the slot's table
    assert(s1.id_to_values@[id] == set_slot(s0.id_to_values@[id], u));
    assert(stored_slot_key(s1.id_to_values@[id], kind, s) == Option::Some(key_of_value(u)));
    lemma_sync_reading(s1, kind, s, key_of_value(u), id);
    assert(a.contains(t));
    // the table only ever held this one compound key for the item
    assert forall|e: EntryView| #[trigger] b.contains(e) <==> (a.contains(e) && e != t) by {
        if a.contains(e) && e.1 == id {
            lemma_sync_reading(s1, kind, s, e.0, id);
            assert(e.0 == key_of_value(u));
        }
        if b.contains(e) {
            assert(a.contains(e) && e.1 != id);
        }
    }
    assert(entries_sorted(a) && entries_sorted(b)) by {
        match kind {
            ValueKind::Uint64 => {},
            ValueKind::Uint128 => {},
            ValueKind::Text => {},
            ValueKind::Timestamp => {},
            ValueKind::Boolean => {},
        }
    }
    lemma_removed_one(a, b, t);
    // the running sizes count the live entries
    assert(s1.meta_of(kind, s)->0@.size == a.len() && s2.meta_of(kind, s)->0@.size == b.len())
        by {
        match kind {
            ValueKind::Uint64 => {},
            ValueKind::Uint128 => {},
            ValueKind::Text => {},
            ValueKind::Timestamp => {},
            ValueKind::Boolean => {},
        }
    }
}

/// An equality bound selects the same entries as the between range
/// whose two ends both carry the value, taken inclusively: the
/// equality resolves to exactly that range, whatever between pair
/// stands beside it, the range admits exactly the entries holding the
/// value, and so every page of the two scans is the same.
pub proof fn lemma_equals_between_equivalence(
    entries: Seq<EntryView>,
    v: u128,
    between: Option<(Option<u128>, Option<u128>)>,
    desc: bool,
    limit: int,
    cursor: Option<EntryView>,
)
    ensures
        crate::query::num_range(Option::Some(v), between) == (
            Option::Some(KeyView::Num(v)),
            Option::Some(KeyView::Num(v)),
            true,
        ),
        forall|e: EntryView|
            #[trigger] in_key_range(
                e,
                Option::Some(KeyView::Num(v)),
                Option::Some(KeyView::Num(v)),
                true,
            ) <==> e.0 == KeyView::Num(v),
        page_spec(
            entries,
            crate::query::num_range(Option::Some(v), between).0,
            crate::query::num_range(Option::Some(v), between).1,
            crate::query::num_range(Option::Some(v), between).2,
            desc,
            limit,
            cursor,
        ) == page_spec(
            entries,
            Option::Some(KeyView::Num(v)),
            Option::Some(KeyView::Num(v)),
            true,
            desc,
            limit,
            cursor,
        ),
{
    assert forall|e: EntryView| #[trigger] in_key_range(
        e,
        Option::Some(KeyView::Num(v)),
        Option::Some(KeyView::Num(v)),
        true,
    ) <==> e.0 == KeyView::Num(v) by {
        crate::keys::lemma_key_lt_trichotomy(e.0, KeyView::Num(v));
    }
}


/// A cursor a read hands out resumes exactly where it left off: the
/// rendered key of the last returned entry reads back as the same
/// compound key, for numeric and for textual tables alike.
pub proof fn lemma_cursor_rendering_reads_back(k: KeyView, id: u64, max: u128)
    ensures
        k matches KeyView::Num(v) && v <= max ==> crate::query::num_cursor(
            Option::Some((crate::keys::key_cursor_bytes(k), id)),
            max,
        ) == Option::Some((k, id)),
        k is Text ==> crate::query::text_cursor(
            Option::Some((crate::keys::key_cursor_bytes(k), id)),
        ) == Option::Some((k, id)),
{
    if let KeyView::Num(v) = k {
        crate::keys::lemma_dec_bytes_val(v);
    }
}


/// The cursor a full page hands out, rendered to bytes and read back,
/// resumes the same traversal exactly at the page's end: together with
/// [`crate::table::lemma_pagination_completeness`], chaining reads
/// through their returned cursors walks the whole scan without
/// duplicates or omissions.
pub proof fn lemma_rendered_cursor_resumes(
    s: Seq<EntryView>,
    lo: Option<KeyView>,
    hi: Option<KeyView>,
    hi_incl: bool,
    desc: bool,
    limit: int,
    cursor: Option<EntryView>,
    max: u128,
)
    requires
        entries_sorted(s),
        1 <= limit,
        forall|i: int|
            0 <= i < s.len() ==> ((#[trigger] s[i]).0 matches KeyView::Num(v) && v
                <= max),
        page_spec(s, lo, hi, hi_incl, desc, limit, cursor).len() == limit,
    ensures
        ({
            let page = page_spec(s, lo, hi, hi_incl, desc, limit, cursor);
            let rendered = (crate::keys::key_cursor_bytes(page.last().0), page.last().1);
            &&& crate::query::num_cursor(Option::Some(rendered), max) == Option::Some(page.last())
            &&& crate::table::scan_spec(s, lo, hi, hi_incl, desc, Option::Some(page.last()))
                == crate::table::scan_spec(s, lo, hi, hi_incl, desc, cursor).skip(limit)
        }),
{
    let trav = crate::table::scan_spec(s, lo, hi, hi_incl, desc, cursor);
    let page = page_spec(s, lo, hi, hi_incl, desc, limit, cursor);
    assert(limit <= trav.len());
    assert(page.last() == trav[limit - 1]) by {
        if limit < trav.len() {
            assert(page == trav.take(limit));
        }
    }
    let c = trav[limit - 1];
    // the last entry comes from the table, so its key is numeric and
    // within the kind's range
    let f = s.filter(
        |e: EntryView|
            crate::table::page_pred(e, lo, hi, hi_incl, desc, cursor),
    );
    crate::table::lemma_filter_subset(
        s,
        |e: EntryView| crate::table::page_pred(e, lo, hi, hi_incl, desc, cursor),
    );
    assert(s.contains(c)) by {
        if desc {
            assert(f.contains(c)) by {
                assert(f[f.len() - limit] == c);
            }
        } else {
            assert(f.contains(c)) by {
                assert(f[limit - 1] == c);
            }
        }
    }
    let j = choose|j: int| 0 <= j < s.len() && s[j] == c;
    assert(c.0 matches KeyView::Num(v) && v <= max) by {
        assert(s[j] == c);
    }
    if let KeyView::Num(v) = c.0 {
        crate::keys::lemma_dec_bytes_val(v);
    }
    crate::table::lemma_scan_after_cursor(s, lo, hi, hi_incl, desc, cursor, limit - 1);
}

} // verus!
