//! Mutating operations: the update/remove consistency protocol.

use vstd::prelude::*;

use crate::error::ContractError;
use crate::keys::{EntryView, IndexKey, KeyView};
use crate::models::{
    ContractMetadata, IndexMetadata, IndexPrefix, IndexSlotValue, IndexedValues, IndexedValuesView,
    InstantiationPreset, PrefixView, SlotValueView,
};
use crate::state::{
    bool_key, make_bool_key, make_text_key, make_u128_key, make_u64_key, text_key, u128_key,
    u64_key, Registry, ValueKind,
};

verus! {

/// The slot a slot-value entry addresses.
pub open spec fn slot_of_value(u: SlotValueView) -> u8 {
    match u {
        SlotValueView::Uint64 { slot, .. } => slot,
        SlotValueView::Uint128 { slot, .. } => slot,
        SlotValueView::Timestamp { slot, .. } => slot,
        SlotValueView::Text { slot, .. } => slot,
        SlotValueView::Boolean { slot, .. } => slot,
    }
}

/// The kind a slot-value entry addresses.
pub open spec fn kind_of_value(u: SlotValueView) -> ValueKind {
    match u {
        SlotValueView::Uint64 { .. } => ValueKind::Uint64,
        SlotValueView::Uint128 { .. } => ValueKind::Uint128,
        SlotValueView::Timestamp { .. } => ValueKind::Timestamp,
        SlotValueView::Text { .. } => ValueKind::Text,
        SlotValueView::Boolean { .. } => ValueKind::Boolean,
    }
}

/// The compound-key value a slot-value entry carries.
pub open spec fn key_of_value(u: SlotValueView) -> KeyView {
    match u {
        SlotValueView::Uint64 { value, .. } => u64_key(value),
        SlotValueView::Uint128 { value, .. } => u128_key(value),
        SlotValueView::Timestamp { value, .. } => u64_key(value),
        SlotValueView::Text { value, .. } => text_key(value),
        SlotValueView::Boolean { value, .. } => bool_key(
            if value {
                1
            } else {
                0
            },
        ),
    }
}

/// The touch record a slot-value entry leaves in the slot's metadata.
pub open spec fn prefix_of_value(u: SlotValueView) -> PrefixView {
    match u {
        SlotValueView::Uint64 { value, .. } => PrefixView::Uint64(value),
        SlotValueView::Uint128 { value, .. } => PrefixView::Uint128(value),
        SlotValueView::Timestamp { value, .. } => PrefixView::Timestamp(value),
        SlotValueView::Text { value, .. } => PrefixView::Text(value),
        SlotValueView::Boolean { value, .. } => PrefixView::Boolean(
            if value {
                1
            } else {
                0
            },
        ),
    }
}

/// A values record with one slot of one kind rewritten.
pub open spec fn set_slot(vv: IndexedValuesView, u: SlotValueView) -> IndexedValuesView {
    match u {
        SlotValueView::Uint64 { slot, value } => IndexedValuesView {
            uint64: vv.uint64.update(slot as int, Option::Some(value)),
            ..vv
        },
        SlotValueView::Uint128 { slot, value } => IndexedValuesView {
            uint128: vv.uint128.update(slot as int, Option::Some(value)),
            ..vv
        },
        SlotValueView::Timestamp { slot, value } => IndexedValuesView {
            timestamp: vv.timestamp.update(slot as int, Option::Some(value)),
            ..vv
        },
        SlotValueView::Text { slot, value } => IndexedValuesView {
            text: vv.text.update(slot as int, Option::Some(value)),
            ..vv
        },
        SlotValueView::Boolean { slot, value } => IndexedValuesView {
            boolean: vv.boolean.update(
                slot as int,
                Option::Some(
                    if value {
                        1
                    } else {
                        0
                    },
                ),
            ),
            ..vv
        },
    }
}

/// A values record after a whole list of slot updates, applied in
/// order.
pub open spec fn apply_updates(vv: IndexedValuesView, l: Seq<SlotValueView>) -> IndexedValuesView
    decreases l.len(),
{
    if l.len() == 0 {
        vv
    } else {
        set_slot(apply_updates(vv, l.drop_last()), l.last())
    }
}

/// The last update in the list that addresses a kind and slot, if any.
pub open spec fn last_update_for(l: Seq<SlotValueView>, kind: ValueKind, s: int) -> Option<
    SlotValueView,
>
    decreases l.len(),
{
    if l.len() == 0 {
        Option::None
    } else if kind_of_value(l.last()) == kind && slot_of_value(l.last()) == s {
        Option::Some(l.last())
    } else {
        last_update_for(l.drop_last(), kind, s)
    }
}

/// Whether two registries differ at most in the tables and metadata of
/// `kind` (there at most in slot `s`) and in the values records.
pub open spec fn slot_frame(pre: Registry, post: Registry, kind: ValueKind, s: int) -> bool {
    &&& post == (Registry {
        u64_tables: post.u64_tables,
        u128_tables: post.u128_tables,
        text_tables: post.text_tables,
        ts_tables: post.ts_tables,
        bool_tables: post.bool_tables,
        u64_meta: post.u64_meta,
        u128_meta: post.u128_meta,
        text_meta: post.text_meta,
        ts_meta: post.ts_meta,
        bool_meta: post.bool_meta,
        id_to_values: post.id_to_values,
        ..pre
    })
    &&& (kind == ValueKind::Uint64 ==> post.u64_tables@ == pre.u64_tables@.update(
        s,
        post.u64_tables@[s],
    ) && post.u64_meta@ == pre.u64_meta@.update(s, post.u64_meta@[s]))
    &&& (kind != ValueKind::Uint64 ==> post.u64_tables@ == pre.u64_tables@ && post.u64_meta@
        == pre.u64_meta@)
    &&& (kind == ValueKind::Uint128 ==> post.u128_tables@ == pre.u128_tables@.update(
        s,
        post.u128_tables@[s],
    ) && post.u128_meta@ == pre.u128_meta@.update(s, post.u128_meta@[s]))
    &&& (kind != ValueKind::Uint128 ==> post.u128_tables@ == pre.u128_tables@ && post.u128_meta@
        == pre.u128_meta@)
    &&& (kind == ValueKind::Text ==> post.text_tables@ == pre.text_tables@.update(
        s,
        post.text_tables@[s],
    ) && post.text_meta@ == pre.text_meta@.update(s, post.text_meta@[s]))
    &&& (kind != ValueKind::Text ==> post.text_tables@ == pre.text_tables@ && post.text_meta@
        == pre.text_meta@)
    &&& (kind == ValueKind::Timestamp ==> post.ts_tables@ == pre.ts_tables@.update(
        s,
        post.ts_tables@[s],
    ) && post.ts_meta@ == pre.ts_meta@.update(s, post.ts_meta@[s]))
    &&& (kind != ValueKind::Timestamp ==> post.ts_tables@ == pre.ts_tables@ && post.ts_meta@
        == pre.ts_meta@)
    &&& (kind == ValueKind::Boolean ==> post.bool_tables@ == pre.bool_tables@.update(
        s,
        post.bool_tables@[s],
    ) && post.bool_meta@ == pre.bool_meta@.update(s, post.bool_meta@[s]))
    &&& (kind != ValueKind::Boolean ==> post.bool_tables@ == pre.bool_tables@ && post.bool_meta@
        == pre.bool_meta@)
}

/// What one applied slot update leaves behind: the item's record is
/// rewritten, the slot's metadata keeps its name but records the touch,
/// and nothing else moves.
pub open spec fn slot_update_applied(
    pre: Registry,
    post: Registry,
    u: SlotValueView,
    id: u64,
    now: u64,
) -> bool {
    let kind = kind_of_value(u);
    let s = slot_of_value(u) as int;
    &&& post.id_to_values@ == pre.id_to_values@.insert(id, set_slot(pre.id_to_values@[id], u))
    &&& slot_frame(pre, post, kind, s)
    &&& pre.meta_of(kind, s) matches Option::Some(om)
    &&& post.meta_of(kind, s) matches Option::Some(nm)
    &&& nm@ == (crate::models::MetaView {
        updated_at: Option::Some(now),
        updated_key: Option::Some((prefix_of_value(u), id)),
        size: nm@.size,
        ..om@
    })
}

impl Registry {
    /// Rewrites one 64-bit integer slot of an item: the old compound
    /// key leaves the slot's table (or, on first population, the slot's
    /// size grows), the new one enters, and the slot's metadata records
    /// the touch.
    fn update_u64_index(&mut self, slot: u8, new_val: u64, id: u64, now: u64)
        requires
            old(self).wf(),
            old(self).id_to_values@.contains_key(id),
            slot < crate::SLOT_COUNT,
            old(self).u64_meta@[slot as int] is Some,
        ensures
            final(self).wf(),
            slot_update_applied(
                *old(self),
                *final(self),
                SlotValueView::Uint64 { slot, value: new_val },
                id,
                now,
            ),
    {
        let ghost pre = *old(self);
        let ghost uview = SlotValueView::Uint64 { slot, value: new_val };
        let s = slot as usize;
        let rec = self.id_to_values.get(id).unwrap();
        let stored: Option<u64> = rec.uint64[s];
        let mut rec2 = rec.clone();
        rec2.uint64[s] = Option::Some(new_val);
        proof {
            assert(rec2@ =~= set_slot(pre.id_to_values@[id], uview));
            assert(pre.u64_slot_synced(slot as int));
        }
        match stored {
            Option::Some(ov) => {
                let tbl = &mut self.u64_tables[s];
                let okey = make_u64_key(ov);
                tbl.remove(&okey, id);
                tbl.insert(make_u64_key(new_val), id);
            },
            Option::None => {
                let tbl = &mut self.u64_tables[s];
                tbl.insert(make_u64_key(new_val), id);
                proof {
                    // the table grew within address space, so the old
                    // size, equal to the old length, is below u64::MAX
                    assert(pre.u64_tables@[slot as int]@.len() < usize::MAX);
                    assert(self.u64_meta@[slot as int] matches Option::Some(m) ==> m@.size
                        < u64::MAX);
                }
                let inc = self.increment_index_size(ValueKind::Uint64, slot);
                proof {
                    assert(inc is Ok);
                }
            },
        }
        let touch = self.update_index_metadata(
            ValueKind::Uint64,
            slot,
            IndexPrefix::Uint64(new_val),
            id,
            now,
        );
        proof {
            assert(touch is Ok);
        }
        self.id_to_values.insert(id, rec2);
        proof {
            let post = *self;
            assert(post.u64_meta@ =~= pre.u64_meta@.update(
                slot as int,
                post.u64_meta@[slot as int],
            ));
            assert(post.u64_tables@ =~= pre.u64_tables@.update(
                slot as int,
                post.u64_tables@[slot as int],
            ));
            assert(slot_frame(pre, post, ValueKind::Uint64, slot as int));
            assert(post.slots_wf());
            assert(post.containers_wf()) by {
                assert forall|s2: int| 0 <= s2 < crate::SLOT_COUNT implies (
                    #[trigger] post.u64_tables@[s2]).wf() by {
                    if s2 != slot as int {
                        assert(post.u64_tables@[s2] == pre.u64_tables@[s2]);
                    }
                }
            }
            assert(post.values_wf()) by {
                assert forall|i: u64| post.id_to_values@.contains_key(i) implies (
                    #[trigger] post.id_to_values@[i]).wf(crate::SLOT_COUNT as int) by {
                    if i != id {
                        assert(post.id_to_values@[i] == pre.id_to_values@[i]);
                    }
                }
            }
            assert(post.sync_invariant()) by {
                assert forall|s2: int|
                    0 <= s2 < crate::SLOT_COUNT implies #[trigger] post.u64_slot_synced(s2) by {
                    assert(pre.u64_slot_synced(s2));
                    assert forall|k: KeyView, i: u64| #[trigger] post.u64_tables@[s2]@.contains(
                        (k, i),
                    ) <==> (post.id_to_values@.contains_key(i) && match post.id_to_values@[i].uint64[s2] {
                        Option::Some(v) => k == u64_key(v),
                        Option::None => false,
                    }) by {
                        if s2 != slot as int {
                            assert(post.u64_tables@[s2] == pre.u64_tables@[s2]);
                            if i != id && pre.id_to_values@.contains_key(i) {
                                assert(post.id_to_values@[i] == pre.id_to_values@[i]);
                            }
                            if i == id {
                                assert(post.id_to_values@[i].uint64[s2]
                                    == pre.id_to_values@[i].uint64[s2]);
                            }
                        }
                    }
                }
                assert forall|s2: int|
                    0 <= s2 < crate::SLOT_COUNT implies #[trigger] post.u128_slot_synced(s2) by {
                    assert(pre.u128_slot_synced(s2));
                    assert forall|k: KeyView, i: u64| #[trigger] post.u128_tables@[s2]@.contains(
                        (k, i),
                    ) <==> (post.id_to_values@.contains_key(i) && match post.id_to_values@[i].uint128[s2] {
                        Option::Some(v) => k == u128_key(v),
                        Option::None => false,
                    }) by {
                        if i != id && pre.id_to_values@.contains_key(i) {
                            assert(post.id_to_values@[i] == pre.id_to_values@[i]);
                        }
                        if i == id {
                            assert(post.id_to_values@[i].uint128[s2]
                                == pre.id_to_values@[i].uint128[s2]);
                        }
                    }
                }
                assert forall|s2: int|
                    0 <= s2 < crate::SLOT_COUNT implies #[trigger] post.text_slot_synced(s2) by {
                    assert(pre.text_slot_synced(s2));
                    assert forall|k: KeyView, i: u64| #[trigger] post.text_tables@[s2]@.contains(
                        (k, i),
                    ) <==> (post.id_to_values@.contains_key(i) && match post.id_to_values@[i].text[s2] {
                        Option::Some(v) => k == text_key(v),
                        Option::None => false,
                    }) by {
                        if i != id && pre.id_to_values@.contains_key(i) {
                            assert(post.id_to_values@[i] == pre.id_to_values@[i]);
                        }
                        if i == id {
                            assert(post.id_to_values@[i].text[s2] == pre.id_to_values@[i].text[s2]);
                        }
                    }
                }
                assert forall|s2: int|
                    0 <= s2 < crate::SLOT_COUNT implies #[trigger] post.ts_slot_synced(s2) by {
                    assert(pre.ts_slot_synced(s2));
                    assert forall|k: KeyView, i: u64| #[trigger] post.ts_tables@[s2]@.contains(
                        (k, i),
                    ) <==> (post.id_to_values@.contains_key(i) && match post.id_to_values@[i].timestamp[s2] {
                        Option::Some(v) => k == u64_key(v),
                        Option::None => false,
                    }) by {
                        if i != id && pre.id_to_values@.contains_key(i) {
                            assert(post.id_to_values@[i] == pre.id_to_values@[i]);
                        }
                        if i == id {
                            assert(post.id_to_values@[i].timestamp[s2]
                                == pre.id_to_values@[i].timestamp[s2]);
                        }
                    }
                }
                assert forall|s2: int|
                    0 <= s2 < crate::SLOT_COUNT implies #[trigger] post.bool_slot_synced(s2) by {
                    assert(pre.bool_slot_synced(s2));
                    assert forall|k: KeyView, i: u64| #[trigger] post.bool_tables@[s2]@.contains(
                        (k, i),
                    ) <==> (post.id_to_values@.contains_key(i) && match post.id_to_values@[i].boolean[s2] {
                        Option::Some(v) => k == bool_key(v),
                        Option::None => false,
                    }) by {
                        if i != id && pre.id_to_values@.contains_key(i) {
                            assert(post.id_to_values@[i] == pre.id_to_values@[i]);
                        }
                        if i == id {
                            assert(post.id_to_values@[i].boolean[s2]
                                == pre.id_to_values@[i].boolean[s2]);
                        }
                    }
                }
            }
            assert(post.size_invariant()) by {
                assert forall|s2: int| 0 <= s2 < crate::SLOT_COUNT implies match #[trigger] post.u64_meta@[s2] {
                    Option::Some(m) => m@.size == post.u64_tables@[s2]@.len(),
                    Option::None => post.u64_tables@[s2]@.len() == 0,
                } by {
                    if s2 != slot as int {
                        assert(post.u64_meta@[s2] == pre.u64_meta@[s2]);
                        assert(post.u64_tables@[s2] == pre.u64_tables@[s2]);
                    } else {
                        if stored is Some {
                            assert(pre.u64_tables@[s2]@.contains(
                                (u64_key(stored->0), id),
                            ));
                        }
                    }
                }
            }
            assert(post.binding_invariant());
            assert(post.builtin_invariant());
            assert(post.wf());
        }
    }

    /// Rewrites one 128-bit integer slot of an item: the old compound
    /// key leaves the slot's table (or, on first population, the slot's
    /// size grows), the new one enters, and the slot's metadata records
    /// the touch.
    fn update_u128_index(&mut self, slot: u8, new_val: u128, id: u64, now: u64)
        requires
            old(self).wf(),
            old(self).id_to_values@.contains_key(id),
            slot < crate::SLOT_COUNT,
            old(self).u128_meta@[slot as int] is Some,
        ensures
            final(self).wf(),
            slot_update_applied(
                *old(self),
                *final(self),
                SlotValueView::Uint128 { slot, value: new_val },
                id,
                now,
            ),
    {
        let ghost pre = *old(self);
        let ghost uview = SlotValueView::Uint128 { slot, value: new_val };
        let s = slot as usize;
        let rec = self.id_to_values.get(id).unwrap();
        let stored: Option<u128> = rec.uint128[s];
        let mut rec2 = rec.clone();
        rec2.uint128[s] = Option::Some(new_val);
        proof {
            assert(rec2@ =~= set_slot(pre.id_to_values@[id], uview));
            assert(pre.u128_slot_synced(slot as int));
        }
        match stored {
            Option::Some(ov) => {
                let tbl = &mut self.u128_tables[s];
                let okey = make_u128_key(ov);
                tbl.remove(&okey, id);
                tbl.insert(make_u128_key(new_val), id);
            },
            Option::None => {
                let tbl = &mut self.u128_tables[s];
                tbl.insert(make_u128_key(new_val), id);
                proof {
                    // the table grew within address space, so the old
                    // size, equal to the old length, is below u64::MAX
                    assert(pre.u128_tables@[slot as int]@.len() < usize::MAX);
                    assert(self.u128_meta@[slot as int] matches Option::Some(m) ==> m@.size
                        < u64::MAX);
                }
                let inc = self.increment_index_size(ValueKind::Uint128, slot);
                proof {
                    assert(inc is Ok);
                }
            },
        }
        let touch = self.update_index_metadata(
            ValueKind::Uint128,
            slot,
            IndexPrefix::Uint128(new_val),
            id,
            now,
        );
        proof {
            assert(touch is Ok);
        }
        self.id_to_values.insert(id, rec2);
        proof {
            let post = *self;
            assert(post.u128_meta@ =~= pre.u128_meta@.update(
                slot as int,
                post.u128_meta@[slot as int],
            ));
            assert(post.u128_tables@ =~= pre.u128_tables@.update(
                slot as int,
                post.u128_tables@[slot as int],
            ));
            assert(slot_frame(pre, post, ValueKind::Uint128, slot as int));
            assert(post.slots_wf());
            assert(post.containers_wf()) by {
                assert forall|s2: int| 0 <= s2 < crate::SLOT_COUNT implies (
                    #[trigger] post.u128_tables@[s2]).wf() by {
                    if s2 != slot as int {
                        assert(post.u128_tables@[s2] == pre.u128_tables@[s2]);
                    }
                }
            }
            assert(post.values_wf()) by {
                assert forall|i: u64| post.id_to_values@.contains_key(i) implies (
                    #[trigger] post.id_to_values@[i]).wf(crate::SLOT_COUNT as int) by {
                    if i != id {
                        assert(post.id_to_values@[i] == pre.id_to_values@[i]);
                    }
                }
            }
            assert(post.sync_invariant()) by {
                assert forall|s2: int|
                    0 <= s2 < crate::SLOT_COUNT implies #[trigger] post.u64_slot_synced(s2) by {
                    assert(pre.u64_slot_synced(s2));
                    assert forall|k: KeyView, i: u64| #[trigger] post.u64_tables@[s2]@.contains(
                        (k, i),
                    ) <==> (post.id_to_values@.contains_key(i) && match post.id_to_values@[i].uint64[s2] {
                        Option::Some(v) => k == u64_key(v),
                        Option::None => false,
                    }) by {
                        if i != id && pre.id_to_values@.contains_key(i) {
                            assert(post.id_to_values@[i] == pre.id_to_values@[i]);
                        }
                        if i == id {
                            assert(post.id_to_values@[i].uint64[s2]
                                == pre.id_to_values@[i].uint64[s2]);
                        }
                    }
                }
                assert forall|s2: int|
                    0 <= s2 < crate::SLOT_COUNT implies #[trigger] post.u128_slot_synced(s2) by {
                    assert(pre.u128_slot_synced(s2));
                    assert forall|k: KeyView, i: u64| #[trigger] post.u128_tables@[s2]@.contains(
                        (k, i),
                    ) <==> (post.id_to_values@.contains_key(i) && match post.id_to_values@[i].uint128[s2] {
                        Option::Some(v) => k == u128_key(v),
                        Option::None => false,
                    }) by {
                        if s2 != slot as int {
                            assert(post.u128_tables@[s2] == pre.u128_tables@[s2]);
                            if i != id && pre.id_to_values@.contains_key(i) {
                                assert(post.id_to_values@[i] == pre.id_to_values@[i]);
                            }
                            if i == id {
                                assert(post.id_to_values@[i].uint128[s2]
                                    == pre.id_to_values@[i].uint128[s2]);
                            }
                        }
                    }
                }
                assert forall|s2: int|
                    0 <= s2 < crate::SLOT_COUNT implies #[trigger] post.text_slot_synced(s2) by {
                    assert(pre.text_slot_synced(s2));
                    assert forall|k: KeyView, i: u64| #[trigger] post.text_tables@[s2]@.contains(
                        (k, i),
                    ) <==> (post.id_to_values@.contains_key(i) && match post.id_to_values@[i].text[s2] {
                        Option::Some(v) => k == text_key(v),
                        Option::None => false,
                    }) by {
                        if i != id && pre.id_to_values@.contains_key(i) {
                            assert(post.id_to_values@[i] == pre.id_to_values@[i]);
                        }
                        if i == id {
                            assert(post.id_to_values@[i].text[s2] == pre.id_to_values@[i].text[s2]);
                        }
                    }
                }
                assert forall|s2: int|
                    0 <= s2 < crate::SLOT_COUNT implies #[trigger] post.ts_slot_synced(s2) by {
                    assert(pre.ts_slot_synced(s2));
                    assert forall|k: KeyView, i: u64| #[trigger] post.ts_tables@[s2]@.contains(
                        (k, i),
                    ) <==> (post.id_to_values@.contains_key(i) && match post.id_to_values@[i].timestamp[s2] {
                        Option::Some(v) => k == u64_key(v),
                        Option::None => false,
                    }) by {
                        if i != id && pre.id_to_values@.contains_key(i) {
                            assert(post.id_to_values@[i] == pre.id_to_values@[i]);
                        }
                        if i == id {
                            assert(post.id_to_values@[i].timestamp[s2]
                                == pre.id_to_values@[i].timestamp[s2]);
                        }
                    }
                }
                assert forall|s2: int|
                    0 <= s2 < crate::SLOT_COUNT implies #[trigger] post.bool_slot_synced(s2) by {
                    assert(pre.bool_slot_synced(s2));
                    assert forall|k: KeyView, i: u64| #[trigger] post.bool_tables@[s2]@.contains(
                        (k, i),
                    ) <==> (post.id_to_values@.contains_key(i) && match post.id_to_values@[i].boolean[s2] {
                        Option::Some(v) => k == bool_key(v),
                        Option::None => false,
                    }) by {
                        if i != id && pre.id_to_values@.contains_key(i) {
                            assert(post.id_to_values@[i] == pre.id_to_values@[i]);
                        }
                        if i == id {
                            assert(post.id_to_values@[i].boolean[s2]
                                == pre.id_to_values@[i].boolean[s2]);
                        }
                    }
                }
            }
            assert(post.size_invariant()) by {
                assert forall|s2: int| 0 <= s2 < crate::SLOT_COUNT implies match #[trigger] post.u128_meta@[s2] {
                    Option::Some(m) => m@.size == post.u128_tables@[s2]@.len(),
                    Option::None => post.u128_tables@[s2]@.len() == 0,
                } by {
                    if s2 != slot as int {
                        assert(post.u128_meta@[s2] == pre.u128_meta@[s2]);
                        assert(post.u128_tables@[s2] == pre.u128_tables@[s2]);
                    } else {
                        if stored is Some {
                            assert(pre.u128_tables@[s2]@.contains(
                                (u128_key(stored->0), id),
                            ));
                        }
                    }
                }
            }
            assert(post.binding_invariant());
            assert(post.builtin_invariant());
            assert(post.wf());
        }
    }

    /// Rewrites one text slot of an item: the old compound
    /// key leaves the slot's table (or, on first population, the slot's
    /// size grows), the new one enters, and the slot's metadata records
    /// the touch.
    fn update_text_index(&mut self, slot: u8, new_val: &String, id: u64, now: u64)
        requires
            old(self).wf(),
            old(self).id_to_values@.contains_key(id),
            slot < crate::SLOT_COUNT,
            old(self).text_meta@[slot as int] is Some,
        ensures
            final(self).wf(),
            slot_update_applied(
                *old(self),
                *final(self),
                SlotValueView::Text { slot, value: new_val@ },
                id,
                now,
            ),
    {
        let ghost pre = *old(self);
        let ghost uview = SlotValueView::Text { slot, value: new_val@ };
        let s = slot as usize;
        let rec = self.id_to_values.get(id).unwrap();
        let stored: Option<String> = match &rec.text[s] {
            Option::Some(v) => Option::Some(v.clone()),
            Option::None => Option::None,
        };
        let mut rec2 = rec.clone();
        let ghost tpre = rec2.text@;
        rec2.text[s] = Option::Some(new_val.clone());
        proof {
            let vvpre = pre.id_to_values@[id];
            assert forall|j: int|
                0 <= j < rec2.text@.len() implies crate::models::opt_strings_view(rec2.text@)[j]
                == vvpre.text.update(slot as int, Option::Some(new_val@))[j] by {
                if j != slot as int {
                    assert(rec2.text@[j] == tpre[j]);
                    assert(crate::models::opt_strings_view(tpre)[j] == vvpre.text[j]);
                }
            }
            assert(crate::models::opt_strings_view(rec2.text@) =~= vvpre.text.update(
                slot as int,
                Option::Some(new_val@),
            ));
            assert(rec2@ =~= set_slot(pre.id_to_values@[id], uview));
            assert(pre.text_slot_synced(slot as int));
        }
        match stored {
            Option::Some(ov) => {
                let tbl = &mut self.text_tables[s];
                let okey = make_text_key(ov.as_str());
                tbl.remove(&okey, id);
                tbl.insert(make_text_key(new_val.as_str()), id);
            },
            Option::None => {
                let tbl = &mut self.text_tables[s];
                tbl.insert(make_text_key(new_val.as_str()), id);
                proof {
                    // the table grew within address space, so the old
                    // size, equal to the old length, is below u64::MAX
                    assert(pre.text_tables@[slot as int]@.len() < usize::MAX);
                    assert(self.text_meta@[slot as int] matches Option::Some(m) ==> m@.size
                        < u64::MAX);
                }
                let inc = self.increment_index_size(ValueKind::Text, slot);
                proof {
                    assert(inc is Ok);
                }
            },
        }
        let touch = self.update_index_metadata(
            ValueKind::Text,
            slot,
            IndexPrefix::Text(new_val.clone()),
            id,
            now,
        );
        proof {
            assert(touch is Ok);
        }
        self.id_to_values.insert(id, rec2);
        proof {
            let post = *self;
            assert(post.text_meta@ =~= pre.text_meta@.update(
                slot as int,
                post.text_meta@[slot as int],
            ));
            assert(post.text_tables@ =~= pre.text_tables@.update(
                slot as int,
                post.text_tables@[slot as int],
            ));
            assert(slot_frame(pre, post, ValueKind::Text, slot as int));
            assert(post.slots_wf());
            assert(post.containers_wf()) by {
                assert forall|s2: int| 0 <= s2 < crate::SLOT_COUNT implies (
                    #[trigger] post.text_tables@[s2]).wf() by {
                    if s2 != slot as int {
                        assert(post.text_tables@[s2] == pre.text_tables@[s2]);
                    }
                }
            }
            assert(post.values_wf()) by {
                assert forall|i: u64| post.id_to_values@.contains_key(i) implies (
                    #[trigger] post.id_to_values@[i]).wf(crate::SLOT_COUNT as int) by {
                    if i != id {
                        assert(post.id_to_values@[i] == pre.id_to_values@[i]);
                    }
                }
            }
            assert(post.sync_invariant()) by {
                assert forall|s2: int|
                    0 <= s2 < crate::SLOT_COUNT implies #[trigger] post.u64_slot_synced(s2) by {
                    assert(pre.u64_slot_synced(s2));
                    assert forall|k: KeyView, i: u64| #[trigger] post.u64_tables@[s2]@.contains(
                        (k, i),
                    ) <==> (post.id_to_values@.contains_key(i) && match post.id_to_values@[i].uint64[s2] {
                        Option::Some(v) => k == u64_key(v),
                        Option::None => false,
                    }) by {
                        if i != id && pre.id_to_values@.contains_key(i) {
                            assert(post.id_to_values@[i] == pre.id_to_values@[i]);
                        }
                        if i == id {
                            assert(post.id_to_values@[i].uint64[s2]
                                == pre.id_to_values@[i].uint64[s2]);
                        }
                    }
                }
                assert forall|s2: int|
                    0 <= s2 < crate::SLOT_COUNT implies #[trigger] post.u128_slot_synced(s2) by {
                    assert(pre.u128_slot_synced(s2));
                    assert forall|k: KeyView, i: u64| #[trigger] post.u128_tables@[s2]@.contains(
                        (k, i),
                    ) <==> (post.id_to_values@.contains_key(i) && match post.id_to_values@[i].uint128[s2] {
                        Option::Some(v) => k == u128_key(v),
                        Option::None => false,
                    }) by {
                        if i != id && pre.id_to_values@.contains_key(i) {
                            assert(post.id_to_values@[i] == pre.id_to_values@[i]);
                        }
                        if i == id {
                            assert(post.id_to_values@[i].uint128[s2]
                                == pre.id_to_values@[i].uint128[s2]);
                        }
                    }
                }
                assert forall|s2: int|
                    0 <= s2 < crate::SLOT_COUNT implies #[trigger] post.text_slot_synced(s2) by {
                    assert(pre.text_slot_synced(s2));
                    assert forall|k: KeyView, i: u64| #[trigger] post.text_tables@[s2]@.contains(
                        (k, i),
                    ) <==> (post.id_to_values@.contains_key(i) && match post.id_to_values@[i].text[s2] {
                        Option::Some(v) => k == text_key(v),
                        Option::None => false,
                    }) by {
                        if s2 != slot as int {
                            assert(post.text_tables@[s2] == pre.text_tables@[s2]);
                            if i != id && pre.id_to_values@.contains_key(i) {
                                assert(post.id_to_values@[i] == pre.id_to_values@[i]);
                            }
                            if i == id {
                                assert(post.id_to_values@[i].text[s2]
                                    == pre.id_to_values@[i].text[s2]);
                            }
                        }
                    }
                }
                assert forall|s2: int|
                    0 <= s2 < crate::SLOT_COUNT implies #[trigger] post.ts_slot_synced(s2) by {
                    assert(pre.ts_slot_synced(s2));
                    assert forall|k: KeyView, i: u64| #[trigger] post.ts_tables@[s2]@.contains(
                        (k, i),
                    ) <==> (post.id_to_values@.contains_key(i) && match post.id_to_values@[i].timestamp[s2] {
                        Option::Some(v) => k == u64_key(v),
                        Option::None => false,
                    }) by {
                        if i != id && pre.id_to_values@.contains_key(i) {
                            assert(post.id_to_values@[i] == pre.id_to_values@[i]);
                        }
                        if i == id {
                            assert(post.id_to_values@[i].timestamp[s2]
                                == pre.id_to_values@[i].timestamp[s2]);
                        }
                    }
                }
                assert forall|s2: int|
                    0 <= s2 < crate::SLOT_COUNT implies #[trigger] post.bool_slot_synced(s2) by {
                    assert(pre.bool_slot_synced(s2));
                    assert forall|k: KeyView, i: u64| #[trigger] post.bool_tables@[s2]@.contains(
                        (k, i),
                    ) <==> (post.id_to_values@.contains_key(i) && match post.id_to_values@[i].boolean[s2] {
                        Option::Some(v) => k == bool_key(v),
                        Option::None => false,
                    }) by {
                        if i != id && pre.id_to_values@.contains_key(i) {
                            assert(post.id_to_values@[i] == pre.id_to_values@[i]);
                        }
                        if i == id {
                            assert(post.id_to_values@[i].boolean[s2]
                                == pre.id_to_values@[i].boolean[s2]);
                        }
                    }
                }
            }
            assert(post.size_invariant()) by {
                assert forall|s2: int| 0 <= s2 < crate::SLOT_COUNT implies match #[trigger] post.text_meta@[s2] {
                    Option::Some(m) => m@.size == post.text_tables@[s2]@.len(),
                    Option::None => post.text_tables@[s2]@.len() == 0,
                } by {
                    if s2 != slot as int {
                        assert(post.text_meta@[s2] == pre.text_meta@[s2]);
                        assert(post.text_tables@[s2] == pre.text_tables@[s2]);
                    } else {
                        if stored is Some {
                            assert(pre.text_tables@[s2]@.contains(
                                (text_key(pre.id_to_values@[id].text[slot as int]->0), id),
                            ));
                        }
                    }
                }
            }
            assert(post.binding_invariant());
            assert(post.builtin_invariant());
            assert(post.wf());
        }
    }

    /// Rewrites one timestamp slot of an item: the old compound
    /// key leaves the slot's table (or, on first population, the slot's
    /// size grows), the new one enters, and the slot's metadata records
    /// the touch.
    fn update_timestamp_index(&mut self, slot: u8, new_val: u64, id: u64, now: u64)
        requires
            old(self).wf(),
            old(self).id_to_values@.contains_key(id),
            slot < crate::SLOT_COUNT,
            old(self).ts_meta@[slot as int] is Some,
        ensures
            final(self).wf(),
            slot_update_applied(
                *old(self),
                *final(self),
                SlotValueView::Timestamp { slot, value: new_val },
                id,
                now,
            ),
    {
        let ghost pre = *old(self);
        let ghost uview = SlotValueView::Timestamp { slot, value: new_val };
        let s = slot as usize;
        let rec = self.id_to_values.get(id).unwrap();
        let stored: Option<u64> = rec.timestamp[s];
        let mut rec2 = rec.clone();
        rec2.timestamp[s] = Option::Some(new_val);
        proof {
            assert(rec2@ =~= set_slot(pre.id_to_values@[id], uview));
            assert(pre.ts_slot_synced(slot as int));
        }
        match stored {
            Option::Some(ov) => {
                let tbl = &mut self.ts_tables[s];
                let okey = make_u64_key(ov);
                tbl.remove(&okey, id);
                tbl.insert(make_u64_key(new_val), id);
            },
            Option::None => {
                let tbl = &mut self.ts_tables[s];
                tbl.insert(make_u64_key(new_val), id);
                proof {
                    // the table grew within address space, so the old
                    // size, equal to the old length, is below u64::MAX
                    assert(pre.ts_tables@[slot as int]@.len() < usize::MAX);
                    assert(self.ts_meta@[slot as int] matches Option::Some(m) ==> m@.size
                        < u64::MAX);
                }
                let inc = self.increment_index_size(ValueKind::Timestamp, slot);
                proof {
                    assert(inc is Ok);
                }
            },
        }
        let touch = self.update_index_metadata(
            ValueKind::Timestamp,
            slot,
            IndexPrefix::Timestamp(new_val),
            id,
            now,
        );
        proof {
            assert(touch is Ok);
        }
        self.id_to_values.insert(id, rec2);
        proof {
            let post = *self;
            assert(post.ts_meta@ =~= pre.ts_meta@.update(
                slot as int,
                post.ts_meta@[slot as int],
            ));
            assert(post.ts_tables@ =~= pre.ts_tables@.update(
                slot as int,
                post.ts_tables@[slot as int],
            ));
            assert(slot_frame(pre, post, ValueKind::Timestamp, slot as int));
            assert(post.slots_wf());
            assert(post.containers_wf()) by {
                assert forall|s2: int| 0 <= s2 < crate::SLOT_COUNT implies (
                    #[trigger] post.ts_tables@[s2]).wf() by {
                    if s2 != slot as int {
                        assert(post.ts_tables@[s2] == pre.ts_tables@[s2]);
                    }
                }
            }
            assert(post.values_wf()) by {
                assert forall|i: u64| post.id_to_values@.contains_key(i) implies (
                    #[trigger] post.id_to_values@[i]).wf(crate::SLOT_COUNT as int) by {
                    if i != id {
                        assert(post.id_to_values@[i] == pre.id_to_values@[i]);
                    }
                }
            }
            assert(post.sync_invariant()) by {
                assert forall|s2: int|
                    0 <= s2 < crate::SLOT_COUNT implies #[trigger] post.u64_slot_synced(s2) by {
                    assert(pre.u64_slot_synced(s2));
                    assert forall|k: KeyView, i: u64| #[trigger] post.u64_tables@[s2]@.contains(
                        (k, i),
                    ) <==> (post.id_to_values@.contains_key(i) && match post.id_to_values@[i].uint64[s2] {
                        Option::Some(v) => k == u64_key(v),
                        Option::None => false,
                    }) by {
                        if i != id && pre.id_to_values@.contains_key(i) {
                            assert(post.id_to_values@[i] == pre.id_to_values@[i]);
                        }
                        if i == id {
                            assert(post.id_to_values@[i].uint64[s2]
                                == pre.id_to_values@[i].uint64[s2]);
                        }
                    }
                }
                assert forall|s2: int|
                    0 <= s2 < crate::SLOT_COUNT implies #[trigger] post.u128_slot_synced(s2) by {
                    assert(pre.u128_slot_synced(s2));
                    assert forall|k: KeyView, i: u64| #[trigger] post.u128_tables@[s2]@.contains(
                        (k, i),
                    ) <==> (post.id_to_values@.contains_key(i) && match post.id_to_values@[i].uint128[s2] {
                        Option::Some(v) => k == u128_key(v),
                        Option::None => false,
                    }) by {
                        if i != id && pre.id_to_values@.contains_key(i) {
                            assert(post.id_to_values@[i] == pre.id_to_values@[i]);
                        }
                        if i == id {
                            assert(post.id_to_values@[i].uint128[s2]
                                == pre.id_to_values@[i].uint128[s2]);
                        }
                    }
                }
                assert forall|s2: int|
                    0 <= s2 < crate::SLOT_COUNT implies #[trigger] post.text_slot_synced(s2) by {
                    assert(pre.text_slot_synced(s2));
                    assert forall|k: KeyView, i: u64| #[trigger] post.text_tables@[s2]@.contains(
                        (k, i),
                    ) <==> (post.id_to_values@.contains_key(i) && match post.id_to_values@[i].text[s2] {
                        Option::Some(v) => k == text_key(v),
                        Option::None => false,
                    }) by {
                        if i != id && pre.id_to_values@.contains_key(i) {
                            assert(post.id_to_values@[i] == pre.id_to_values@[i]);
                        }
                        if i == id {
                            assert(post.id_to_values@[i].text[s2] == pre.id_to_values@[i].text[s2]);
                        }
                    }
                }
                assert forall|s2: int|
                    0 <= s2 < crate::SLOT_COUNT implies #[trigger] post.ts_slot_synced(s2) by {
                    assert(pre.ts_slot_synced(s2));
                    assert forall|k: KeyView, i: u64| #[trigger] post.ts_tables@[s2]@.contains(
                        (k, i),
                    ) <==> (post.id_to_values@.contains_key(i) && match post.id_to_values@[i].timestamp[s2] {
                        Option::Some(v) => k == u64_key(v),
                        Option::None => false,
                    }) by {
                        if s2 != slot as int {
                            assert(post.ts_tables@[s2] == pre.ts_tables@[s2]);
                            if i != id && pre.id_to_values@.contains_key(i) {
                                assert(post.id_to_values@[i] == pre.id_to_values@[i]);
                            }
                            if i == id {
                                assert(post.id_to_values@[i].timestamp[s2]
                                    == pre.id_to_values@[i].timestamp[s2]);
                            }
                        }
                    }
                }
                assert forall|s2: int|
                    0 <= s2 < crate::SLOT_COUNT implies #[trigger] post.bool_slot_synced(s2) by {
                    assert(pre.bool_slot_synced(s2));
                    assert forall|k: KeyView, i: u64| #[trigger] post.bool_tables@[s2]@.contains(
                        (k, i),
                    ) <==> (post.id_to_values@.contains_key(i) && match post.id_to_values@[i].boolean[s2] {
                        Option::Some(v) => k == bool_key(v),
                        Option::None => false,
                    }) by {
                        if i != id && pre.id_to_values@.contains_key(i) {
                            assert(post.id_to_values@[i] == pre.id_to_values@[i]);
                        }
                        if i == id {
                            assert(post.id_to_values@[i].boolean[s2]
                                == pre.id_to_values@[i].boolean[s2]);
                        }
                    }
                }
            }
            assert(post.size_invariant()) by {
                assert forall|s2: int| 0 <= s2 < crate::SLOT_COUNT implies match #[trigger] post.ts_meta@[s2] {
                    Option::Some(m) => m@.size == post.ts_tables@[s2]@.len(),
                    Option::None => post.ts_tables@[s2]@.len() == 0,
                } by {
                    if s2 != slot as int {
                        assert(post.ts_meta@[s2] == pre.ts_meta@[s2]);
                        assert(post.ts_tables@[s2] == pre.ts_tables@[s2]);
                    } else {
                        if stored is Some {
                            assert(pre.ts_tables@[s2]@.contains(
                                (u64_key(stored->0), id),
                            ));
                        }
                    }
                }
            }
            assert(post.binding_invariant());
            assert(post.builtin_invariant());
            assert(post.wf());
        }
    }

    /// Rewrites one boolean slot of an item: the old compound
    /// key leaves the slot's table (or, on first population, the slot's
    /// size grows), the new one enters, and the slot's metadata records
    /// the touch.
    fn update_bool_index(&mut self, slot: u8, new_val: bool, id: u64, now: u64)
        requires
            old(self).wf(),
            old(self).id_to_values@.contains_key(id),
            slot < crate::SLOT_COUNT,
            old(self).bool_meta@[slot as int] is Some,
        ensures
            final(self).wf(),
            slot_update_applied(
                *old(self),
                *final(self),
                SlotValueView::Boolean { slot, value: new_val },
                id,
                now,
            ),
    {
        let ghost pre = *old(self);
        let ghost uview = SlotValueView::Boolean { slot, value: new_val };
        let s = slot as usize;
        let rec = self.id_to_values.get(id).unwrap();
        let stored: Option<u8> = rec.boolean[s];
        let mut rec2 = rec.clone();
        let new_u8: u8 = if new_val {
            1
        } else {
            0
        };
        rec2.boolean[s] = Option::Some(new_u8);
        proof {
            assert(rec2@ =~= set_slot(pre.id_to_values@[id], uview));
            assert(pre.bool_slot_synced(slot as int));
        }
        match stored {
            Option::Some(ov) => {
                let tbl = &mut self.bool_tables[s];
                let okey = make_bool_key(ov);
                tbl.remove(&okey, id);
                tbl.insert(make_bool_key(new_u8), id);
            },
            Option::None => {
                let tbl = &mut self.bool_tables[s];
                tbl.insert(make_bool_key(new_u8), id);
                proof {
                    // the table grew within address space, so the old
                    // size, equal to the old length, is below u64::MAX
                    assert(pre.bool_tables@[slot as int]@.len() < usize::MAX);
                    assert(self.bool_meta@[slot as int] matches Option::Some(m) ==> m@.size
                        < u64::MAX);
                }
                let inc = self.increment_index_size(ValueKind::Boolean, slot);
                proof {
                    assert(inc is Ok);
                }
            },
        }
        let touch = self.update_index_metadata(
            ValueKind::Boolean,
            slot,
            IndexPrefix::Boolean(new_u8),
            id,
            now,
        );
        proof {
            assert(touch is Ok);
        }
        self.id_to_values.insert(id, rec2);
        proof {
            let post = *self;
            assert(post.bool_meta@ =~= pre.bool_meta@.update(
                slot as int,
                post.bool_meta@[slot as int],
            ));
            assert(post.bool_tables@ =~= pre.bool_tables@.update(
                slot as int,
                post.bool_tables@[slot as int],
            ));
            assert(slot_frame(pre, post, ValueKind::Boolean, slot as int));
            assert(post.slots_wf());
            assert(post.containers_wf()) by {
                assert forall|s2: int| 0 <= s2 < crate::SLOT_COUNT implies (
                    #[trigger] post.bool_tables@[s2]).wf() by {
                    if s2 != slot as int {
                        assert(post.bool_tables@[s2] == pre.bool_tables@[s2]);
                    }
                }
            }
            assert(post.values_wf()) by {
                assert forall|i: u64| post.id_to_values@.contains_key(i) implies (
                    #[trigger] post.id_to_values@[i]).wf(crate::SLOT_COUNT as int) by {
                    if i != id {
                        assert(post.id_to_values@[i] == pre.id_to_values@[i]);
                    }
                }
            }
            assert(post.sync_invariant()) by {
                assert forall|s2: int|
                    0 <= s2 < crate::SLOT_COUNT implies #[trigger] post.u64_slot_synced(s2) by {
                    assert(pre.u64_slot_synced(s2));
                    assert forall|k: KeyView, i: u64| #[trigger] post.u64_tables@[s2]@.contains(
                        (k, i),
                    ) <==> (post.id_to_values@.contains_key(i) && match post.id_to_values@[i].uint64[s2] {
                        Option::Some(v) => k == u64_key(v),
                        Option::None => false,
                    }) by {
                        if i != id && pre.id_to_values@.contains_key(i) {
                            assert(post.id_to_values@[i] == pre.id_to_values@[i]);
                        }
                        if i == id {
                            assert(post.id_to_values@[i].uint64[s2]
                                == pre.id_to_values@[i].uint64[s2]);
                        }
                    }
                }
                assert forall|s2: int|
                    0 <= s2 < crate::SLOT_COUNT implies #[trigger] post.u128_slot_synced(s2) by {
                    assert(pre.u128_slot_synced(s2));
                    assert forall|k: KeyView, i: u64| #[trigger] post.u128_tables@[s2]@.contains(
                        (k, i),
                    ) <==> (post.id_to_values@.contains_key(i) && match post.id_to_values@[i].uint128[s2] {
                        Option::Some(v) => k == u128_key(v),
                        Option::None => false,
                    }) by {
                        if i != id && pre.id_to_values@.contains_key(i) {
                            assert(post.id_to_values@[i] == pre.id_to_values@[i]);
                        }
                        if i == id {
                            assert(post.id_to_values@[i].uint128[s2]
                                == pre.id_to_values@[i].uint128[s2]);
                        }
                    }
                }
                assert forall|s2: int|
                    0 <= s2 < crate::SLOT_COUNT implies #[trigger] post.text_slot_synced(s2) by {
                    assert(pre.text_slot_synced(s2));
                    assert forall|k: KeyView, i: u64| #[trigger] post.text_tables@[s2]@.contains(
                        (k, i),
                    ) <==> (post.id_to_values@.contains_key(i) && match post.id_to_values@[i].text[s2] {
                        Option::Some(v) => k == text_key(v),
                        Option::None => false,
                    }) by {
                        if i != id && pre.id_to_values@.contains_key(i) {
                            assert(post.id_to_values@[i] == pre.id_to_values@[i]);
                        }
                        if i == id {
                            assert(post.id_to_values@[i].text[s2] == pre.id_to_values@[i].text[s2]);
                        }
                    }
                }
                assert forall|s2: int|
                    0 <= s2 < crate::SLOT_COUNT implies #[trigger] post.ts_slot_synced(s2) by {
                    assert(pre.ts_slot_synced(s2));
                    assert forall|k: KeyView, i: u64| #[trigger] post.ts_tables@[s2]@.contains(
                        (k, i),
                    ) <==> (post.id_to_values@.contains_key(i) && match post.id_to_values@[i].timestamp[s2] {
                        Option::Some(v) => k == u64_key(v),
                        Option::None => false,
                    }) by {
                        if i != id && pre.id_to_values@.contains_key(i) {
                            assert(post.id_to_values@[i] == pre.id_to_values@[i]);
                        }
                        if i == id {
                            assert(post.id_to_values@[i].timestamp[s2]
                                == pre.id_to_values@[i].timestamp[s2]);
                        }
                    }
                }
                assert forall|s2: int|
                    0 <= s2 < crate::SLOT_COUNT implies #[trigger] post.bool_slot_synced(s2) by {
                    assert(pre.bool_slot_synced(s2));
                    assert forall|k: KeyView, i: u64| #[trigger] post.bool_tables@[s2]@.contains(
                        (k, i),
                    ) <==> (post.id_to_values@.contains_key(i) && match post.id_to_values@[i].boolean[s2] {
                        Option::Some(v) => k == bool_key(v),
                        Option::None => false,
                    }) by {
                        if s2 != slot as int {
                            assert(post.bool_tables@[s2] == pre.bool_tables@[s2]);
                            if i != id && pre.id_to_values@.contains_key(i) {
                                assert(post.id_to_values@[i] == pre.id_to_values@[i]);
                            }
                            if i == id {
                                assert(post.id_to_values@[i].boolean[s2]
                                    == pre.id_to_values@[i].boolean[s2]);
                            }
                        }
                    }
                }
            }
            assert(post.size_invariant()) by {
                assert forall|s2: int| 0 <= s2 < crate::SLOT_COUNT implies match #[trigger] post.bool_meta@[s2] {
                    Option::Some(m) => m@.size == post.bool_tables@[s2]@.len(),
                    Option::None => post.bool_tables@[s2]@.len() == 0,
                } by {
                    if s2 != slot as int {
                        assert(post.bool_meta@[s2] == pre.bool_meta@[s2]);
                        assert(post.bool_tables@[s2] == pre.bool_tables@[s2]);
                    } else {
                        if stored is Some {
                            assert(pre.bool_tables@[s2]@.contains(
                                (bool_key(stored->0), id),
                            ));
                        }
                    }
                }
            }
            assert(post.binding_invariant());
            assert(post.builtin_invariant());
            assert(post.wf());
        }
    }
}


/// The first reason the list of slot updates must be refused, checked
/// front to back from position `i`: a slot at or beyond the bank, or a
/// slot whose metadata was never initialized.
pub open spec fn updates_error_from(
    reg: Registry,
    l: Seq<SlotValueView>,
    i: int,
) -> Option<ContractError>
    decreases l.len() - i,
{
    if i < 0 || i >= l.len() {
        Option::None
    } else if slot_of_value(l[i]) >= crate::SLOT_COUNT {
        Option::Some(ContractError::SlotOutOfBounds { slot: slot_of_value(l[i]) })
    } else if reg.meta_of(kind_of_value(l[i]), slot_of_value(l[i]) as int) is None {
        Option::Some(ContractError::InvalidIndexSlot)
    } else {
        updates_error_from(reg, l, i + 1)
    }
}

proof fn lemma_updates_ok(reg: Registry, l: Seq<SlotValueView>, i: int)
    requires
        updates_error_from(reg, l, 0) is None,
        0 <= i < l.len(),
    ensures
        slot_of_value(l[i]) < crate::SLOT_COUNT,
        reg.meta_of(kind_of_value(l[i]), slot_of_value(l[i]) as int) is Some,
        updates_error_from(reg, l, i) is None,
    decreases i,
{
    if i > 0 {
        lemma_updates_ok(reg, l, i - 1);
    }
}

/// What the slot metadata looks like after a list of updates: slots the
/// list never touches keep their record; a touched slot keeps its name
/// but records the time and key of its last touch.
pub open spec fn metas_touched(
    pre: Registry,
    post: Registry,
    l: Seq<SlotValueView>,
    id: u64,
    now: u64,
) -> bool {
    forall|kind: ValueKind, s: int|
        0 <= s < crate::SLOT_COUNT ==> match last_update_for(l, kind, s) {
            Option::None => #[trigger] post.meta_of(kind, s) == pre.meta_of(kind, s),
            Option::Some(u) => {
                &&& pre.meta_of(kind, s) matches Option::Some(om)
                &&& post.meta_of(kind, s) matches Option::Some(nm)
                &&& nm@ == (crate::models::MetaView {
                    updated_at: Option::Some(now),
                    updated_key: Option::Some((prefix_of_value(u), id)),
                    size: nm@.size,
                    ..om@
                })
            },
        }
}

impl Registry {
    /// Updates an item: the caller must be a managed contract; its
    /// update time and revision advance, together with their built-in
    /// indices, and each given slot value strictly replaces the old
    /// compound key with the new one.  A value for a slot never
    /// populated before fills it and grows the slot's size.
    pub fn update(
        &mut self,
        sender: &String,
        now: u64,
        index_updates: &Option<Vec<IndexSlotValue>>,
    ) -> (r: Result<(), ContractError>)
        requires
            old(self).wf(),
            old(self).addr_to_id@.contains_key(sender@) ==> old(self).metadata@[old(self).addr_to_id@[sender@]].rev < u64::MAX,
        ensures
            final(self).wf(),
            !old(self).addr_to_id@.contains_key(sender@) ==> r == Result::<(),
                ContractError,
            >::Err(ContractError::NotAuthorized) && *final(self) == *old(self),
            old(self).addr_to_id@.contains_key(sender@) && updates_error_from(
                *old(self),
                update_views(index_updates),
                0,
            ) is Some ==> r == Result::<(), ContractError>::Err(
                updates_error_from(*old(self), update_views(index_updates), 0)->0,
            ) && *final(self) == *old(self),
            old(self).addr_to_id@.contains_key(sender@) && updates_error_from(
                *old(self),
                update_views(index_updates),
                0,
            ) is None ==> {
                let id = old(self).addr_to_id@[sender@];
                let oldmeta = old(self).metadata@[id];
                &&& r is Ok
                &&& final(self).metadata@ == old(self).metadata@.insert(
                    id,
                    ContractMetadata {
                        updated_at: now,
                        rev: (oldmeta.rev + 1) as u64,
                        ..oldmeta
                    },
                )
                &&& final(self).id_to_values@ == old(self).id_to_values@.insert(
                    id,
                    apply_updates(
                        old(self).id_to_values@[id],
                        update_views(index_updates),
                    ),
                )
                &&& metas_touched(
                    *old(self),
                    *final(self),
                    update_views(index_updates),
                    id,
                    now,
                )
                &&& *final(self) == (Registry {
                    metadata: final(self).metadata,
                    id_to_values: final(self).id_to_values,
                    u64_tables: final(self).u64_tables,
                    u128_tables: final(self).u128_tables,
                    text_tables: final(self).text_tables,
                    ts_tables: final(self).ts_tables,
                    bool_tables: final(self).bool_tables,
                    u64_meta: final(self).u64_meta,
                    u128_meta: final(self).u128_meta,
                    text_meta: final(self).text_meta,
                    ts_meta: final(self).ts_meta,
                    bool_meta: final(self).bool_meta,
                    ix_updated_at: final(self).ix_updated_at,
                    ix_rev: final(self).ix_rev,
                    ..*old(self)
                })
            },
    {
        let ghost pre = *old(self);
        let id = match self.addr_to_id.get(sender) {
            Option::Some(v) => *v,
            Option::None => {
                return Result::Err(ContractError::NotAuthorized);
            },
        };
        let ghost lv = update_views(index_updates);
        // Validate every slot update before touching anything, so that
        // a refused call leaves the registry exactly as it was.
        if let Option::Some(updates) = index_updates {
            let mut vi: usize = 0;
            while vi < updates.len()
                invariant
                    vi <= updates@.len(),
                    lv == crate::models::slot_values_view(updates@),
                    lv.len() == updates@.len(),
                    forall|j: int| 0 <= j < updates@.len() ==> lv[j] == (#[trigger] updates@[j])@,
                    self == old(self),
                    updates_error_from(pre, lv, 0) == updates_error_from(pre, lv, vi as int),
                decreases updates@.len() - vi,
            {
                let (slot, kind) = match &updates[vi] {
                    IndexSlotValue::Uint64 { slot, .. } => (*slot, ValueKind::Uint64),
                    IndexSlotValue::Uint128 { slot, .. } => (*slot, ValueKind::Uint128),
                    IndexSlotValue::Timestamp { slot, .. } => (*slot, ValueKind::Timestamp),
                    IndexSlotValue::Text { slot, .. } => (*slot, ValueKind::Text),
                    IndexSlotValue::Boolean { slot, .. } => (*slot, ValueKind::Boolean),
                };
                proof {
                    assert(lv[vi as int] == updates@[vi as int]@);
                    assert(slot_of_value(lv[vi as int]) == slot);
                    assert(kind_of_value(lv[vi as int]) == kind);
                }
                if slot >= crate::SLOT_COUNT {
                    return Result::Err(ContractError::SlotOutOfBounds { slot });
                }
                let missing = match kind {
                    ValueKind::Uint64 => self.u64_meta[slot as usize].is_none(),
                    ValueKind::Uint128 => self.u128_meta[slot as usize].is_none(),
                    ValueKind::Text => self.text_meta[slot as usize].is_none(),
                    ValueKind::Timestamp => self.ts_meta[slot as usize].is_none(),
                    ValueKind::Boolean => self.bool_meta[slot as usize].is_none(),
                };
                if missing {
                    return Result::Err(ContractError::InvalidIndexSlot);
                }
                vi = vi + 1;
            }
        }
        proof {
            assert(updates_error_from(pre, lv, 0) is None);
        }
        // Advance the update-time and revision built-in indices; their
        // old compound keys must be present, as the sync invariant
        // guarantees.
        let meta_old: ContractMetadata = *self.metadata.get(id).unwrap();
        let okey = make_u64_key(meta_old.updated_at);
        if !self.ix_updated_at.contains(&okey, id) {
            return Result::Err(ContractError::NotInIndex);
        }
        self.ix_updated_at.remove(&okey, id);
        self.ix_updated_at.insert(make_u64_key(now), id);
        let rkey = make_u64_key(meta_old.rev);
        if !self.ix_rev.contains(&rkey, id) {
            return Result::Err(ContractError::NotInIndex);
        }
        self.ix_rev.remove(&rkey, id);
        self.ix_rev.insert(make_u64_key(meta_old.rev + 1), id);
        let meta_new = ContractMetadata {
            updated_at: now,
            rev: meta_old.rev + 1,
            ..meta_old
        };
        self.metadata.insert(id, meta_new);
        let ghost mid = *self;
        proof {
            assert(mid.slots_wf());
            assert(mid.containers_wf());
            assert(mid.values_wf());
            assert(mid.sync_invariant()) by {
                assert forall|s2: int|
                    0 <= s2 < crate::SLOT_COUNT implies #[trigger] mid.u64_slot_synced(s2) by {
                    assert(pre.u64_slot_synced(s2));
                }
                assert forall|s2: int|
                    0 <= s2 < crate::SLOT_COUNT implies #[trigger] mid.u128_slot_synced(s2) by {
                    assert(pre.u128_slot_synced(s2));
                }
                assert forall|s2: int|
                    0 <= s2 < crate::SLOT_COUNT implies #[trigger] mid.text_slot_synced(s2) by {
                    assert(pre.text_slot_synced(s2));
                }
                assert forall|s2: int|
                    0 <= s2 < crate::SLOT_COUNT implies #[trigger] mid.ts_slot_synced(s2) by {
                    assert(pre.ts_slot_synced(s2));
                }
                assert forall|s2: int|
                    0 <= s2 < crate::SLOT_COUNT implies #[trigger] mid.bool_slot_synced(s2) by {
                    assert(pre.bool_slot_synced(s2));
                }
            }
            assert(mid.size_invariant());
            assert(mid.binding_invariant());
            assert(mid.builtin_invariant()) by {
                assert forall|k: KeyView, i: u64| #[trigger] mid.ix_updated_at@.contains(
                    (k, i),
                ) <==> (mid.metadata@.contains_key(i) && k == u64_key(
                    mid.metadata@[i].updated_at,
                )) by {
                    if i != id && pre.metadata@.contains_key(i) {
                        assert(mid.metadata@[i] == pre.metadata@[i]);
                    }
                }
                assert forall|k: KeyView, i: u64| #[trigger] mid.ix_rev@.contains((k, i)) <==> (
                mid.metadata@.contains_key(i) && k == u64_key(mid.metadata@[i].rev)) by {
                    if i != id && pre.metadata@.contains_key(i) {
                        assert(mid.metadata@[i] == pre.metadata@[i]);
                    }
                }
                assert forall|k: KeyView, i: u64| #[trigger] mid.ix_created_at@.contains(
                    (k, i),
                ) <==> (mid.metadata@.contains_key(i) && k == u64_key(
                    mid.metadata@[i].created_at,
                )) by {
                    if pre.metadata@.contains_key(i) {
                        if i != id {
                            assert(mid.metadata@[i] == pre.metadata@[i]);
                        } else {
                            assert(mid.metadata@[i].created_at == pre.metadata@[i].created_at);
                        }
                    }
                }
                assert forall|k: KeyView, i: u64| #[trigger] mid.ix_code_id@.contains(
                    (k, i),
                ) <==> (mid.metadata@.contains_key(i) && k == u64_key(
                    mid.metadata@[i].code_id,
                )) by {
                    if pre.metadata@.contains_key(i) {
                        if i != id {
                            assert(mid.metadata@[i] == pre.metadata@[i]);
                        } else {
                            assert(mid.metadata@[i].code_id == pre.metadata@[i].code_id);
                        }
                    }
                }
                assert forall|k: KeyView, i: u64| #[trigger] mid.ix_height@.contains((k, i)) <==> (
                mid.metadata@.contains_key(i) && k == u64_key(mid.metadata@[i].height)) by {
                    if pre.metadata@.contains_key(i) {
                        if i != id {
                            assert(mid.metadata@[i] == pre.metadata@[i]);
                        } else {
                            assert(mid.metadata@[i].height == pre.metadata@[i].height);
                        }
                    }
                }
            }
            assert(mid.wf());
            assert(mid.metadata@ == pre.metadata@.insert(
                id,
                ContractMetadata { updated_at: now, rev: (pre.metadata@[id].rev + 1) as u64, ..pre.metadata@[id] },
            ));
        }
        // Apply each slot update in order.
        if let Option::Some(updates) = index_updates {
            let mut i: usize = 0;
            while i < updates.len()
                invariant
                    i <= updates@.len(),
                    lv == crate::models::slot_values_view(updates@),
                    lv.len() == updates@.len(),
                    forall|j: int| 0 <= j < updates@.len() ==> lv[j] == (#[trigger] updates@[j])@,
                    updates_error_from(pre, lv, 0) is None,
                    self.wf(),
                    mid.wf(),
                    mid.id_to_values@.contains_key(id),
                    self.id_to_values@ == mid.id_to_values@.insert(
                        id,
                        apply_updates(mid.id_to_values@[id], lv.take(i as int)),
                    ),
                    self.metadata@ == mid.metadata@,
                    metas_touched(mid, *self, lv.take(i as int), id, now),
                    *self == (Registry {
                        id_to_values: self.id_to_values,
                        u64_tables: self.u64_tables,
                        u128_tables: self.u128_tables,
                        text_tables: self.text_tables,
                        ts_tables: self.ts_tables,
                        bool_tables: self.bool_tables,
                        u64_meta: self.u64_meta,
                        u128_meta: self.u128_meta,
                        text_meta: self.text_meta,
                        ts_meta: self.ts_meta,
                        bool_meta: self.bool_meta,
                        ..mid
                    }),
                decreases updates@.len() - i,
            {
                let ghost steppre = *self;
                let ghost u = lv[i as int];
                proof {
                    lemma_updates_ok(pre, lv, i as int);
                    assert(u == updates@[i as int]@);
                    // the slot's metadata is still present: it was
                    // present before and touches keep it present
                    assert(steppre.meta_of(kind_of_value(u), slot_of_value(u) as int) is Some) by {
                        if last_update_for(lv.take(i as int), kind_of_value(u), slot_of_value(u) as int) is None {
                            assert(steppre.meta_of(kind_of_value(u), slot_of_value(u) as int)
                                == mid.meta_of(kind_of_value(u), slot_of_value(u) as int));
                            assert(mid.meta_of(kind_of_value(u), slot_of_value(u) as int)
                                == pre.meta_of(kind_of_value(u), slot_of_value(u) as int));
                        }
                    }
                    assert(steppre.id_to_values@.contains_key(id));
                }
                match &updates[i] {
                    IndexSlotValue::Uint64 { slot, value } => {
                        self.update_u64_index(*slot, *value, id, now);
                    },
                    IndexSlotValue::Uint128 { slot, value } => {
                        self.update_u128_index(*slot, *value, id, now);
                    },
                    IndexSlotValue::Timestamp { slot, value } => {
                        self.update_timestamp_index(*slot, *value, id, now);
                    },
                    IndexSlotValue::Text { slot, value } => {
                        self.update_text_index(*slot, value, id, now);
                    },
                    IndexSlotValue::Boolean { slot, value } => {
                        self.update_bool_index(*slot, *value, id, now);
                    },
                }
                proof {
                    let post = *self;
                    assert(slot_update_applied(steppre, post, u, id, now));
                    assert(lv.take(i + 1) =~= lv.take(i as int).push(u));
                    assert(lv.take(i + 1).drop_last() =~= lv.take(i as int));
                    assert(post.id_to_values@ =~= mid.id_to_values@.insert(
                        id,
                        apply_updates(mid.id_to_values@[id], lv.take(i + 1)),
                    ));
                    assert(metas_touched(mid, post, lv.take(i + 1), id, now)) by {
                        assert forall|kind: ValueKind, s: int|
                            0 <= s < crate::SLOT_COUNT implies match last_update_for(
                            lv.take(i + 1),
                            kind,
                            s,
                        ) {
                            Option::None => #[trigger] post.meta_of(kind, s) == mid.meta_of(
                                kind,
                                s,
                            ),
                            Option::Some(uu) => {
                                &&& mid.meta_of(kind, s) matches Option::Some(om)
                                &&& post.meta_of(kind, s) matches Option::Some(nm)
                                &&& nm@ == (crate::models::MetaView {
                                    updated_at: Option::Some(now),
                                    updated_key: Option::Some((prefix_of_value(uu), id)),
                                    size: nm@.size,
                                    ..om@
                                })
                            },
                        } by {
                            if kind == kind_of_value(u) && s == slot_of_value(u) as int {
                                assert(last_update_for(lv.take(i + 1), kind, s)
                                    == Option::Some(u));
                            } else {
                                assert(last_update_for(lv.take(i + 1), kind, s)
                                    == last_update_for(lv.take(i as int), kind, s));
                                assert(post.meta_of(kind, s) == steppre.meta_of(kind, s));
                            }
                        }
                    }
                }
                i = i + 1;
            }
            proof {
                assert(lv.take(lv.len() as int) =~= lv);
            }
        } else {
            proof {
                assert(lv.take(0) =~= lv);
                assert(apply_updates(mid.id_to_values@[id], lv) == mid.id_to_values@[id]);
                assert(self.id_to_values@ =~= mid.id_to_values@.insert(
                    id,
                    apply_updates(mid.id_to_values@[id], lv),
                ));
            }
        }
        proof {
            assert(self.id_to_values@ == mid.id_to_values@.insert(
                id,
                apply_updates(mid.id_to_values@[id], lv),
            )) by {
                assert(self.id_to_values@ =~= mid.id_to_values@.insert(
                    id,
                    apply_updates(mid.id_to_values@[id], lv),
                ));
            }
            assert(mid.id_to_values@ == pre.id_to_values@);
            assert(self.id_to_values@ =~= pre.id_to_values@.insert(
                id,
                apply_updates(pre.id_to_values@[id], lv),
            ));
            assert(metas_touched(pre, *self, lv, id, now)) by {
                assert forall|kind: ValueKind, s: int|
                    0 <= s < crate::SLOT_COUNT implies match last_update_for(lv, kind, s) {
                    Option::None => #[trigger] self.meta_of(kind, s) == pre.meta_of(kind, s),
                    Option::Some(uu) => {
                        &&& pre.meta_of(kind, s) matches Option::Some(om)
                        &&& self.meta_of(kind, s) matches Option::Some(nm)
                        &&& nm@ == (crate::models::MetaView {
                            updated_at: Option::Some(now),
                            updated_key: Option::Some((prefix_of_value(uu), id)),
                            size: nm@.size,
                            ..om@
                        })
                    },
                } by {
                    assert(mid.meta_of(kind, s) == pre.meta_of(kind, s));
                }
            }
        }
        Result::Ok(())
    }
}

/// The models of an optional list of slot updates; an absent list is
/// the empty one.
pub open spec fn update_views(l: &Option<Vec<IndexSlotValue>>) -> Seq<SlotValueView> {
    match l {
        Option::None => Seq::empty(),
        Option::Some(v) => crate::models::slot_values_view(v@),
    }
}


impl Registry {
    /// Tears the given item out of every custom index table and
    /// recounts each initialized slot's size.
    fn purge_custom_entries(&mut self, id: u64)
        requires
            old(self).slots_wf(),
            forall|s: int|
                0 <= s < crate::SLOT_COUNT ==> (#[trigger] old(self).u64_tables@[s]).wf(),
            forall|s: int|
                0 <= s < crate::SLOT_COUNT ==> (#[trigger] old(self).u128_tables@[s]).wf(),
            forall|s: int|
                0 <= s < crate::SLOT_COUNT ==> (#[trigger] old(self).text_tables@[s]).wf(),
            forall|s: int|
                0 <= s < crate::SLOT_COUNT ==> (#[trigger] old(self).ts_tables@[s]).wf(),
            forall|s: int|
                0 <= s < crate::SLOT_COUNT ==> (#[trigger] old(self).bool_tables@[s]).wf(),
        ensures
            final(self).slots_wf(),
            *final(self) == (Registry {
                u64_tables: final(self).u64_tables,
                u128_tables: final(self).u128_tables,
                text_tables: final(self).text_tables,
                ts_tables: final(self).ts_tables,
                bool_tables: final(self).bool_tables,
                u64_meta: final(self).u64_meta,
                u128_meta: final(self).u128_meta,
                text_meta: final(self).text_meta,
                ts_meta: final(self).ts_meta,
                bool_meta: final(self).bool_meta,
                ..*old(self)
            }),
            forall|s: int|
                0 <= s < crate::SLOT_COUNT ==> (#[trigger] final(self).u64_tables@[s]).wf(),
            forall|s: int, e: EntryView|
                0 <= s < crate::SLOT_COUNT ==> ((#[trigger] final(self).u64_tables@[s]@.contains(e))
                    <==> (old(self).u64_tables@[s]@.contains(e) && e.1 != id)),
            forall|s: int|
                0 <= s < crate::SLOT_COUNT ==> #[trigger] final(self).u64_tables@[s]@.len()
                    <= usize::MAX,
            forall|s: int|
                0 <= s < crate::SLOT_COUNT ==> match #[trigger] final(self).u64_meta@[s] {
                    Option::Some(m) => old(self).u64_meta@[s] matches Option::Some(om) && m@ == (
                    crate::models::MetaView {
                        size: final(self).u64_tables@[s]@.len() as u64,
                        ..om@
                    }),
                    Option::None => old(self).u64_meta@[s] is None,
                },
            forall|s: int|
                0 <= s < crate::SLOT_COUNT ==> (#[trigger] final(self).u128_tables@[s]).wf(),
            forall|s: int, e: EntryView|
                0 <= s < crate::SLOT_COUNT ==> ((#[trigger] final(self).u128_tables@[s]@.contains(e))
                    <==> (old(self).u128_tables@[s]@.contains(e) && e.1 != id)),
            forall|s: int|
                0 <= s < crate::SLOT_COUNT ==> #[trigger] final(self).u128_tables@[s]@.len()
                    <= usize::MAX,
            forall|s: int|
                0 <= s < crate::SLOT_COUNT ==> match #[trigger] final(self).u128_meta@[s] {
                    Option::Some(m) => old(self).u128_meta@[s] matches Option::Some(om) && m@ == (
                    crate::models::MetaView {
                        size: final(self).u128_tables@[s]@.len() as u64,
                        ..om@
                    }),
                    Option::None => old(self).u128_meta@[s] is None,
                },
            forall|s: int|
                0 <= s < crate::SLOT_COUNT ==> (#[trigger] final(self).text_tables@[s]).wf(),
            forall|s: int, e: EntryView|
                0 <= s < crate::SLOT_COUNT ==> ((#[trigger] final(self).text_tables@[s]@.contains(e))
                    <==> (old(self).text_tables@[s]@.contains(e) && e.1 != id)),
            forall|s: int|
                0 <= s < crate::SLOT_COUNT ==> #[trigger] final(self).text_tables@[s]@.len()
                    <= usize::MAX,
            forall|s: int|
                0 <= s < crate::SLOT_COUNT ==> match #[trigger] final(self).text_meta@[s] {
                    Option::Some(m) => old(self).text_meta@[s] matches Option::Some(om) && m@ == (
                    crate::models::MetaView {
                        size: final(self).text_tables@[s]@.len() as u64,
                        ..om@
                    }),
                    Option::None => old(self).text_meta@[s] is None,
                },
            forall|s: int|
                0 <= s < crate::SLOT_COUNT ==> (#[trigger] final(self).ts_tables@[s]).wf(),
            forall|s: int, e: EntryView|
                0 <= s < crate::SLOT_COUNT ==> ((#[trigger] final(self).ts_tables@[s]@.contains(e))
                    <==> (old(self).ts_tables@[s]@.contains(e) && e.1 != id)),
            forall|s: int|
                0 <= s < crate::SLOT_COUNT ==> #[trigger] final(self).ts_tables@[s]@.len()
                    <= usize::MAX,
            forall|s: int|
                0 <= s < crate::SLOT_COUNT ==> match #[trigger] final(self).ts_meta@[s] {
                    Option::Some(m) => old(self).ts_meta@[s] matches Option::Some(om) && m@ == (
                    crate::models::MetaView {
                        size: final(self).ts_tables@[s]@.len() as u64,
                        ..om@
                    }),
                    Option::None => old(self).ts_meta@[s] is None,
                },
            forall|s: int|
                0 <= s < crate::SLOT_COUNT ==> (#[trigger] final(self).bool_tables@[s]).wf(),
            forall|s: int, e: EntryView|
                0 <= s < crate::SLOT_COUNT ==> ((#[trigger] final(self).bool_tables@[s]@.contains(e))
                    <==> (old(self).bool_tables@[s]@.contains(e) && e.1 != id)),
            forall|s: int|
                0 <= s < crate::SLOT_COUNT ==> #[trigger] final(self).bool_tables@[s]@.len()
                    <= usize::MAX,
            forall|s: int|
                0 <= s < crate::SLOT_COUNT ==> match #[trigger] final(self).bool_meta@[s] {
                    Option::Some(m) => old(self).bool_meta@[s] matches Option::Some(om) && m@ == (
                    crate::models::MetaView {
                        size: final(self).bool_tables@[s]@.len() as u64,
                        ..om@
                    }),
                    Option::None => old(self).bool_meta@[s] is None,
                },
    {
        let ghost snap_u64_tables = *self;
        let ghost pre_u64_tables = self.u64_tables@;
        let mut i_u64_tables: usize = 0;
        while i_u64_tables < crate::SLOT_COUNT as usize
            invariant
                i_u64_tables <= crate::SLOT_COUNT as usize,
                self.u64_tables@.len() == crate::SLOT_COUNT,
                *self == (Registry { u64_tables: self.u64_tables, ..snap_u64_tables }),
                forall|s: int|
                    i_u64_tables <= s < crate::SLOT_COUNT ==> #[trigger] self.u64_tables@[s] == pre_u64_tables[s],
                forall|s: int|
                    0 <= s < i_u64_tables ==> (#[trigger] self.u64_tables@[s]).wf(),
                forall|s: int, e: EntryView|
                    0 <= s < i_u64_tables ==> ((#[trigger] self.u64_tables@[s]@.contains(e)) <==> (
                    pre_u64_tables[s]@.contains(e) && e.1 != id)),
            decreases crate::SLOT_COUNT as usize - i_u64_tables,
        {
            let tbl = &mut self.u64_tables[i_u64_tables];
            tbl.remove_id(id);
            i_u64_tables = i_u64_tables + 1;
        }
        let ghost snap_u128_tables = *self;
        let ghost pre_u128_tables = self.u128_tables@;
        let mut i_u128_tables: usize = 0;
        while i_u128_tables < crate::SLOT_COUNT as usize
            invariant
                i_u128_tables <= crate::SLOT_COUNT as usize,
                self.u128_tables@.len() == crate::SLOT_COUNT,
                *self == (Registry { u128_tables: self.u128_tables, ..snap_u128_tables }),
                forall|s: int|
                    i_u128_tables <= s < crate::SLOT_COUNT ==> #[trigger] self.u128_tables@[s] == pre_u128_tables[s],
                forall|s: int|
                    0 <= s < i_u128_tables ==> (#[trigger] self.u128_tables@[s]).wf(),
                forall|s: int, e: EntryView|
                    0 <= s < i_u128_tables ==> ((#[trigger] self.u128_tables@[s]@.contains(e)) <==> (
                    pre_u128_tables[s]@.contains(e) && e.1 != id)),
            decreases crate::SLOT_COUNT as usize - i_u128_tables,
        {
            let tbl = &mut self.u128_tables[i_u128_tables];
            tbl.remove_id(id);
            i_u128_tables = i_u128_tables + 1;
        }
        let ghost snap_text_tables = *self;
        let ghost pre_text_tables = self.text_tables@;
        let mut i_text_tables: usize = 0;
        while i_text_tables < crate::SLOT_COUNT as usize
            invariant
                i_text_tables <= crate::SLOT_COUNT as usize,
                self.text_tables@.len() == crate::SLOT_COUNT,
                *self == (Registry { text_tables: self.text_tables, ..snap_text_tables }),
                forall|s: int|
                    i_text_tables <= s < crate::SLOT_COUNT ==> #[trigger] self.text_tables@[s] == pre_text_tables[s],
                forall|s: int|
                    0 <= s < i_text_tables ==> (#[trigger] self.text_tables@[s]).wf(),
                forall|s: int, e: EntryView|
                    0 <= s < i_text_tables ==> ((#[trigger] self.text_tables@[s]@.contains(e)) <==> (
                    pre_text_tables[s]@.contains(e) && e.1 != id)),
            decreases crate::SLOT_COUNT as usize - i_text_tables,
        {
            let tbl = &mut self.text_tables[i_text_tables];
            tbl.remove_id(id);
            i_text_tables = i_text_tables + 1;
        }
        let ghost snap_ts_tables = *self;
        let ghost pre_ts_tables = self.ts_tables@;
        let mut i_ts_tables: usize = 0;
        while i_ts_tables < crate::SLOT_COUNT as usize
            invariant
                i_ts_tables <= crate::SLOT_COUNT as usize,
                self.ts_tables@.len() == crate::SLOT_COUNT,
                *self == (Registry { ts_tables: self.ts_tables, ..snap_ts_tables }),
                forall|s: int|
                    i_ts_tables <= s < crate::SLOT_COUNT ==> #[trigger] self.ts_tables@[s] == pre_ts_tables[s],
                forall|s: int|
                    0 <= s < i_ts_tables ==> (#[trigger] self.ts_tables@[s]).wf(),
                forall|s: int, e: EntryView|
                    0 <= s < i_ts_tables ==> ((#[trigger] self.ts_tables@[s]@.contains(e)) <==> (
                    pre_ts_tables[s]@.contains(e) && e.1 != id)),
            decreases crate::SLOT_COUNT as usize - i_ts_tables,
        {
            let tbl = &mut self.ts_tables[i_ts_tables];
            tbl.remove_id(id);
            i_ts_tables = i_ts_tables + 1;
        }
        let ghost snap_bool_tables = *self;
        let ghost pre_bool_tables = self.bool_tables@;
        let mut i_bool_tables: usize = 0;
        while i_bool_tables < crate::SLOT_COUNT as usize
            invariant
                i_bool_tables <= crate::SLOT_COUNT as usize,
                self.bool_tables@.len() == crate::SLOT_COUNT,
                *self == (Registry { bool_tables: self.bool_tables, ..snap_bool_tables }),
                forall|s: int|
                    i_bool_tables <= s < crate::SLOT_COUNT ==> #[trigger] self.bool_tables@[s] == pre_bool_tables[s],
                forall|s: int|
                    0 <= s < i_bool_tables ==> (#[trigger] self.bool_tables@[s]).wf(),
                forall|s: int, e: EntryView|
                    0 <= s < i_bool_tables ==> ((#[trigger] self.bool_tables@[s]@.contains(e)) <==> (
                    pre_bool_tables[s]@.contains(e) && e.1 != id)),
            decreases crate::SLOT_COUNT as usize - i_bool_tables,
        {
            let tbl = &mut self.bool_tables[i_bool_tables];
            tbl.remove_id(id);
            i_bool_tables = i_bool_tables + 1;
        }
        let ghost msnap_u64_meta = *self;
        let ghost mpre_u64_meta = self.u64_meta@;
        let mut j_u64_meta: usize = 0;
        while j_u64_meta < crate::SLOT_COUNT as usize
            invariant
                j_u64_meta <= crate::SLOT_COUNT as usize,
                self.u64_meta@.len() == crate::SLOT_COUNT,
                self.u64_tables@.len() == crate::SLOT_COUNT,
                *self == (Registry { u64_meta: self.u64_meta, ..msnap_u64_meta }),
                forall|s: int|
                    j_u64_meta <= s < crate::SLOT_COUNT ==> #[trigger] self.u64_meta@[s] == mpre_u64_meta[s],
                forall|s: int|
                    0 <= s < j_u64_meta ==> #[trigger] self.u64_tables@[s]@.len() <= usize::MAX,
                forall|s: int|
                    0 <= s < j_u64_meta ==> match #[trigger] self.u64_meta@[s] {
                        Option::Some(m) => mpre_u64_meta[s] matches Option::Some(om) && m@ == (
                        crate::models::MetaView {
                            size: self.u64_tables@[s]@.len() as u64,
                            ..om@
                        }),
                        Option::None => mpre_u64_meta[s] is None,
                    },
            decreases crate::SLOT_COUNT as usize - j_u64_meta,
        {
            let n = self.u64_tables[j_u64_meta].len();
            match &self.u64_meta[j_u64_meta] {
                Option::Some(m) => {
                    let mut m2 = m.clone();
                    m2.size = n as u64;
                    self.u64_meta[j_u64_meta] = Option::Some(m2);
                },
                Option::None => {},
            }
            j_u64_meta = j_u64_meta + 1;
        }
        let ghost msnap_u128_meta = *self;
        let ghost mpre_u128_meta = self.u128_meta@;
        let mut j_u128_meta: usize = 0;
        while j_u128_meta < crate::SLOT_COUNT as usize
            invariant
                j_u128_meta <= crate::SLOT_COUNT as usize,
                self.u128_meta@.len() == crate::SLOT_COUNT,
                self.u128_tables@.len() == crate::SLOT_COUNT,
                *self == (Registry { u128_meta: self.u128_meta, ..msnap_u128_meta }),
                forall|s: int|
                    j_u128_meta <= s < crate::SLOT_COUNT ==> #[trigger] self.u128_meta@[s] == mpre_u128_meta[s],
                forall|s: int|
                    0 <= s < j_u128_meta ==> #[trigger] self.u128_tables@[s]@.len() <= usize::MAX,
                forall|s: int|
                    0 <= s < j_u128_meta ==> match #[trigger] self.u128_meta@[s] {
                        Option::Some(m) => mpre_u128_meta[s] matches Option::Some(om) && m@ == (
                        crate::models::MetaView {
                            size: self.u128_tables@[s]@.len() as u64,
                            ..om@
                        }),
                        Option::None => mpre_u128_meta[s] is None,
                    },
            decreases crate::SLOT_COUNT as usize - j_u128_meta,
        {
            let n = self.u128_tables[j_u128_meta].len();
            match &self.u128_meta[j_u128_meta] {
                Option::Some(m) => {
                    let mut m2 = m.clone();
                    m2.size = n as u64;
                    self.u128_meta[j_u128_meta] = Option::Some(m2);
                },
                Option::None => {},
            }
            j_u128_meta = j_u128_meta + 1;
        }
        let ghost msnap_text_meta = *self;
        let ghost mpre_text_meta = self.text_meta@;
        let mut j_text_meta: usize = 0;
        while j_text_meta < crate::SLOT_COUNT as usize
            invariant
                j_text_meta <= crate::SLOT_COUNT as usize,
                self.text_meta@.len() == crate::SLOT_COUNT,
                self.text_tables@.len() == crate::SLOT_COUNT,
                *self == (Registry { text_meta: self.text_meta, ..msnap_text_meta }),
                forall|s: int|
                    j_text_meta <= s < crate::SLOT_COUNT ==> #[trigger] self.text_meta@[s] == mpre_text_meta[s],
                forall|s: int|
                    0 <= s < j_text_meta ==> #[trigger] self.text_tables@[s]@.len() <= usize::MAX,
                forall|s: int|
                    0 <= s < j_text_meta ==> match #[trigger] self.text_meta@[s] {
                        Option::Some(m) => mpre_text_meta[s] matches Option::Some(om) && m@ == (
                        crate::models::MetaView {
                            size: self.text_tables@[s]@.len() as u64,
                            ..om@
                        }),
                        Option::None => mpre_text_meta[s] is None,
                    },
            decreases crate::SLOT_COUNT as usize - j_text_meta,
        {
            let n = self.text_tables[j_text_meta].len();
            match &self.text_meta[j_text_meta] {
                Option::Some(m) => {
                    let mut m2 = m.clone();
                    m2.size = n as u64;
                    self.text_meta[j_text_meta] = Option::Some(m2);
                },
                Option::None => {},
            }
            j_text_meta = j_text_meta + 1;
        }
        let ghost msnap_ts_meta = *self;
        let ghost mpre_ts_meta = self.ts_meta@;
        let mut j_ts_meta: usize = 0;
        while j_ts_meta < crate::SLOT_COUNT as usize
            invariant
                j_ts_meta <= crate::SLOT_COUNT as usize,
                self.ts_meta@.len() == crate::SLOT_COUNT,
                self.ts_tables@.len() == crate::SLOT_COUNT,
                *self == (Registry { ts_meta: self.ts_meta, ..msnap_ts_meta }),
                forall|s: int|
                    j_ts_meta <= s < crate::SLOT_COUNT ==> #[trigger] self.ts_meta@[s] == mpre_ts_meta[s],
                forall|s: int|
                    0 <= s < j_ts_meta ==> #[trigger] self.ts_tables@[s]@.len() <= usize::MAX,
                forall|s: int|
                    0 <= s < j_ts_meta ==> match #[trigger] self.ts_meta@[s] {
                        Option::Some(m) => mpre_ts_meta[s] matches Option::Some(om) && m@ == (
                        crate::models::MetaView {
                            size: self.ts_tables@[s]@.len() as u64,
                            ..om@
                        }),
                        Option::None => mpre_ts_meta[s] is None,
                    },
            decreases crate::SLOT_COUNT as usize - j_ts_meta,
        {
            let n = self.ts_tables[j_ts_meta].len();
            match &self.ts_meta[j_ts_meta] {
                Option::Some(m) => {
                    let mut m2 = m.clone();
                    m2.size = n as u64;
                    self.ts_meta[j_ts_meta] = Option::Some(m2);
                },
                Option::None => {},
            }
            j_ts_meta = j_ts_meta + 1;
        }
        let ghost msnap_bool_meta = *self;
        let ghost mpre_bool_meta = self.bool_meta@;
        let mut j_bool_meta: usize = 0;
        while j_bool_meta < crate::SLOT_COUNT as usize
            invariant
                j_bool_meta <= crate::SLOT_COUNT as usize,
                self.bool_meta@.len() == crate::SLOT_COUNT,
                self.bool_tables@.len() == crate::SLOT_COUNT,
                *self == (Registry { bool_meta: self.bool_meta, ..msnap_bool_meta }),
                forall|s: int|
                    j_bool_meta <= s < crate::SLOT_COUNT ==> #[trigger] self.bool_meta@[s] == mpre_bool_meta[s],
                forall|s: int|
                    0 <= s < j_bool_meta ==> #[trigger] self.bool_tables@[s]@.len() <= usize::MAX,
                forall|s: int|
                    0 <= s < j_bool_meta ==> match #[trigger] self.bool_meta@[s] {
                        Option::Some(m) => mpre_bool_meta[s] matches Option::Some(om) && m@ == (
                        crate::models::MetaView {
                            size: self.bool_tables@[s]@.len() as u64,
                            ..om@
                        }),
                        Option::None => mpre_bool_meta[s] is None,
                    },
            decreases crate::SLOT_COUNT as usize - j_bool_meta,
        {
            let n = self.bool_tables[j_bool_meta].len();
            match &self.bool_meta[j_bool_meta] {
                Option::Some(m) => {
                    let mut m2 = m.clone();
                    m2.size = n as u64;
                    self.bool_meta[j_bool_meta] = Option::Some(m2);
                },
                Option::None => {},
            }
            j_bool_meta = j_bool_meta + 1;
        }
    }
}


impl Registry {
    /// Adds a tag association; adding one that exists changes nothing.
    pub fn add_tag(&mut self, tag: &String, id: u64)
        requires
            old(self).wf(),
        ensures
            final(self).wf(),
            forall|e: EntryView|
                #[trigger] final(self).tags@.contains(e) <==> (old(self).tags@.contains(e) || e
                    == (crate::state::text_key(tag@), id)),
            *final(self) == (Registry {
                tags: final(self).tags,
                tags_size: final(self).tags_size,
                ..*old(self)
            }),
    {
        let key = make_text_key(tag.as_str());
        self.tags.insert(key, id);
        self.tags_size = self.tags.len() as u64;
        proof {
            let post = *self;
            let pre = *old(self);
            assert(post.sync_invariant()) by {
                assert forall|s2: int|
                    0 <= s2 < crate::SLOT_COUNT implies #[trigger] post.u64_slot_synced(s2) by {
                    assert(pre.u64_slot_synced(s2));
                }
                assert forall|s2: int|
                    0 <= s2 < crate::SLOT_COUNT implies #[trigger] post.u128_slot_synced(s2) by {
                    assert(pre.u128_slot_synced(s2));
                }
                assert forall|s2: int|
                    0 <= s2 < crate::SLOT_COUNT implies #[trigger] post.text_slot_synced(s2) by {
                    assert(pre.text_slot_synced(s2));
                }
                assert forall|s2: int|
                    0 <= s2 < crate::SLOT_COUNT implies #[trigger] post.ts_slot_synced(s2) by {
                    assert(pre.ts_slot_synced(s2));
                }
                assert forall|s2: int|
                    0 <= s2 < crate::SLOT_COUNT implies #[trigger] post.bool_slot_synced(s2) by {
                    assert(pre.bool_slot_synced(s2));
                }
            }
        }

    }

    /// Drops a tag association; dropping one that is absent changes
    /// nothing.
    pub fn remove_tag(&mut self, tag: &String, id: u64)
        requires
            old(self).wf(),
        ensures
            final(self).wf(),
            forall|e: EntryView|
                #[trigger] final(self).tags@.contains(e) <==> (old(self).tags@.contains(e) && e
                    != (crate::state::text_key(tag@), id)),
            *final(self) == (Registry {
                tags: final(self).tags,
                tags_size: final(self).tags_size,
                ..*old(self)
            }),
    {
        let key = make_text_key(tag.as_str());
        self.tags.remove(&key, id);
        self.tags_size = self.tags.len() as u64;
        proof {
            let post = *self;
            let pre = *old(self);
            assert(post.sync_invariant()) by {
                assert forall|s2: int|
                    0 <= s2 < crate::SLOT_COUNT implies #[trigger] post.u64_slot_synced(s2) by {
                    assert(pre.u64_slot_synced(s2));
                }
                assert forall|s2: int|
                    0 <= s2 < crate::SLOT_COUNT implies #[trigger] post.u128_slot_synced(s2) by {
                    assert(pre.u128_slot_synced(s2));
                }
                assert forall|s2: int|
                    0 <= s2 < crate::SLOT_COUNT implies #[trigger] post.text_slot_synced(s2) by {
                    assert(pre.text_slot_synced(s2));
                }
                assert forall|s2: int|
                    0 <= s2 < crate::SLOT_COUNT implies #[trigger] post.ts_slot_synced(s2) by {
                    assert(pre.ts_slot_synced(s2));
                }
                assert forall|s2: int|
                    0 <= s2 < crate::SLOT_COUNT implies #[trigger] post.bool_slot_synced(s2) by {
                    assert(pre.bool_slot_synced(s2));
                }
            }
        }

    }

    /// Adds a relationship association; adding one that exists changes
    /// nothing.
    pub fn add_relationship(&mut self, address: &String, name: &String, id: u64)
        requires
            old(self).wf(),
        ensures
            final(self).wf(),
            forall|e: EntryView|
                #[trigger] final(self).relationships@.contains(e) <==> (old(self).relationships@.contains(e) || e == (crate::state::rel_key(address@, name@), id)),
            *final(self) == (Registry {
                relationships: final(self).relationships,
                relationships_size: final(self).relationships_size,
                ..*old(self)
            }),
    {
        let key = crate::state::make_rel_key(address.as_str(), name.as_str());
        self.relationships.insert(key, id);
        self.relationships_size = self.relationships.len() as u64;
        proof {
            let post = *self;
            let pre = *old(self);
            assert(post.sync_invariant()) by {
                assert forall|s2: int|
                    0 <= s2 < crate::SLOT_COUNT implies #[trigger] post.u64_slot_synced(s2) by {
                    assert(pre.u64_slot_synced(s2));
                }
                assert forall|s2: int|
                    0 <= s2 < crate::SLOT_COUNT implies #[trigger] post.u128_slot_synced(s2) by {
                    assert(pre.u128_slot_synced(s2));
                }
                assert forall|s2: int|
                    0 <= s2 < crate::SLOT_COUNT implies #[trigger] post.text_slot_synced(s2) by {
                    assert(pre.text_slot_synced(s2));
                }
                assert forall|s2: int|
                    0 <= s2 < crate::SLOT_COUNT implies #[trigger] post.ts_slot_synced(s2) by {
                    assert(pre.ts_slot_synced(s2));
                }
                assert forall|s2: int|
                    0 <= s2 < crate::SLOT_COUNT implies #[trigger] post.bool_slot_synced(s2) by {
                    assert(pre.bool_slot_synced(s2));
                }
            }
        }

    }

    /// Drops a relationship association; dropping one that is absent
    /// changes nothing.
    pub fn remove_relationship(&mut self, address: &String, name: &String, id: u64)
        requires
            old(self).wf(),
        ensures
            final(self).wf(),
            forall|e: EntryView|
                #[trigger] final(self).relationships@.contains(e) <==> (old(self).relationships@.contains(e) && e != (crate::state::rel_key(address@, name@), id)),
            *final(self) == (Registry {
                relationships: final(self).relationships,
                relationships_size: final(self).relationships_size,
                ..*old(self)
            }),
    {
        let key = crate::state::make_rel_key(address.as_str(), name.as_str());
        self.relationships.remove(&key, id);
        self.relationships_size = self.relationships.len() as u64;
        proof {
            let post = *self;
            let pre = *old(self);
            assert(post.sync_invariant()) by {
                assert forall|s2: int|
                    0 <= s2 < crate::SLOT_COUNT implies #[trigger] post.u64_slot_synced(s2) by {
                    assert(pre.u64_slot_synced(s2));
                }
                assert forall|s2: int|
                    0 <= s2 < crate::SLOT_COUNT implies #[trigger] post.u128_slot_synced(s2) by {
                    assert(pre.u128_slot_synced(s2));
                }
                assert forall|s2: int|
                    0 <= s2 < crate::SLOT_COUNT implies #[trigger] post.text_slot_synced(s2) by {
                    assert(pre.text_slot_synced(s2));
                }
                assert forall|s2: int|
                    0 <= s2 < crate::SLOT_COUNT implies #[trigger] post.ts_slot_synced(s2) by {
                    assert(pre.ts_slot_synced(s2));
                }
                assert forall|s2: int|
                    0 <= s2 < crate::SLOT_COUNT implies #[trigger] post.bool_slot_synced(s2) by {
                    assert(pre.bool_slot_synced(s2));
                }
            }
        }

    }

    /// Records a contract the create workflow instantiated: binds its
    /// id to its address, stores its metadata, and fills the built-in
    /// indices.  Registering an address twice is a harmless no-op.
    pub fn register_created(
        &mut self,
        contract_id: u64,
        contract_addr: &String,
        code_id: u64,
        height: u64,
        now: u64,
    ) -> (r: Result<(), ContractError>)
        requires
            old(self).wf(),
            old(self).id_to_values@.contains_key(contract_id),
            !old(self).id_to_addr@.contains_key(contract_id),
        ensures
            final(self).wf(),
            r is Ok,
            old(self).addr_to_id@.contains_key(contract_addr@) ==> *final(self) == *old(self),
            !old(self).addr_to_id@.contains_key(contract_addr@) ==> {
                &&& final(self).metadata@ == old(self).metadata@.insert(
                    contract_id,
                    ContractMetadata {
                        id: contract_id,
                        code_id,
                        height,
                        created_at: now,
                        updated_at: now,
                        rev: 0,
                    },
                )
                &&& final(self).id_to_addr@ == old(self).id_to_addr@.insert(
                    contract_id,
                    contract_addr@,
                )
                &&& final(self).addr_to_id@ == old(self).addr_to_id@.insert(
                    contract_addr@,
                    contract_id,
                )
                &&& *final(self) == (Registry {
                    metadata: final(self).metadata,
                    id_to_addr: final(self).id_to_addr,
                    addr_to_id: final(self).addr_to_id,
                    ix_created_at: final(self).ix_created_at,
                    ix_updated_at: final(self).ix_updated_at,
                    ix_rev: final(self).ix_rev,
                    ix_code_id: final(self).ix_code_id,
                    ix_height: final(self).ix_height,
                    ix_address: final(self).ix_address,
                    ..*old(self)
                })
            },
    {
        let ghost pre = *old(self);
        if self.addr_to_id.contains_key(contract_addr) {
            return Result::Ok(());
        }
        let id = contract_id;
        proof {
            // the id is unbound, so no built-in index holds it yet
            assert(!pre.metadata@.contains_key(id));
        }
        self.ix_code_id.insert(make_u64_key(code_id), id);
        self.ix_rev.insert(make_u64_key(0), id);
        self.ix_created_at.insert(make_u64_key(now), id);
        self.ix_updated_at.insert(make_u64_key(now), id);
        self.ix_height.insert(make_u64_key(height), id);
        self.ix_address.insert(make_text_key(contract_addr.as_str()), id);
        self.id_to_addr.insert(id, contract_addr.clone());
        self.addr_to_id.insert(contract_addr.clone(), id);
        self.metadata.insert(
            id,
            ContractMetadata { id, code_id, height, created_at: now, updated_at: now, rev: 0 },
        );
        proof {
            let post = *self;
            assert(post.slots_wf());
            assert(post.containers_wf());
            assert(post.values_wf());
            assert(post.sync_invariant()) by {
                assert forall|s2: int|
                    0 <= s2 < crate::SLOT_COUNT implies #[trigger] post.u64_slot_synced(s2) by {
                    assert(pre.u64_slot_synced(s2));
                }
                assert forall|s2: int|
                    0 <= s2 < crate::SLOT_COUNT implies #[trigger] post.u128_slot_synced(s2) by {
                    assert(pre.u128_slot_synced(s2));
                }
                assert forall|s2: int|
                    0 <= s2 < crate::SLOT_COUNT implies #[trigger] post.text_slot_synced(s2) by {
                    assert(pre.text_slot_synced(s2));
                }
                assert forall|s2: int|
                    0 <= s2 < crate::SLOT_COUNT implies #[trigger] post.ts_slot_synced(s2) by {
                    assert(pre.ts_slot_synced(s2));
                }
                assert forall|s2: int|
                    0 <= s2 < crate::SLOT_COUNT implies #[trigger] post.bool_slot_synced(s2) by {
                    assert(pre.bool_slot_synced(s2));
                }
            }
            assert(post.size_invariant());
            assert(post.binding_invariant()) by {
                assert forall|k: KeyView, i: u64| #[trigger] post.ix_address@.contains(
                    (k, i),
                ) <==> (post.id_to_addr@.contains_key(i) && k == crate::state::text_key(
                    post.id_to_addr@[i],
                )) by {
                    if i != id && pre.id_to_addr@.contains_key(i) {
                        assert(post.id_to_addr@[i] == pre.id_to_addr@[i]);
                    }
                }
            }
            assert(post.builtin_invariant()) by {
                assert forall|k: KeyView, i: u64| #[trigger] post.ix_created_at@.contains(
                    (k, i),
                ) <==> (post.metadata@.contains_key(i) && k == u64_key(
                    post.metadata@[i].created_at,
                )) by {
                    if i != id && pre.metadata@.contains_key(i) {
                        assert(post.metadata@[i] == pre.metadata@[i]);
                    }
                }
                assert forall|k: KeyView, i: u64| #[trigger] post.ix_updated_at@.contains(
                    (k, i),
                ) <==> (post.metadata@.contains_key(i) && k == u64_key(
                    post.metadata@[i].updated_at,
                )) by {
                    if i != id && pre.metadata@.contains_key(i) {
                        assert(post.metadata@[i] == pre.metadata@[i]);
                    }
                }
                assert forall|k: KeyView, i: u64| #[trigger] post.ix_rev@.contains((k, i)) <==> (
                post.metadata@.contains_key(i) && k == u64_key(post.metadata@[i].rev)) by {
                    if i != id && pre.metadata@.contains_key(i) {
                        assert(post.metadata@[i] == pre.metadata@[i]);
                    }
                }
                assert forall|k: KeyView, i: u64| #[trigger] post.ix_code_id@.contains(
                    (k, i),
                ) <==> (post.metadata@.contains_key(i) && k == u64_key(
                    post.metadata@[i].code_id,
                )) by {
                    if i != id && pre.metadata@.contains_key(i) {
                        assert(post.metadata@[i] == pre.metadata@[i]);
                    }
                }
                assert forall|k: KeyView, i: u64| #[trigger] post.ix_height@.contains((k, i)) <==> (
                post.metadata@.contains_key(i) && k == u64_key(post.metadata@[i].height)) by {
                    if i != id && pre.metadata@.contains_key(i) {
                        assert(post.metadata@[i] == pre.metadata@[i]);
                    }
                }
            }
        }
        Result::Ok(())
    }

    /// Removes an item entirely: every compound key it holds in any
    /// custom or built-in index disappears, the slot sizes and the tag
    /// and relationship counters drop accordingly, its bindings and
    /// metadata are dropped, and the item count decreases by one.
    pub fn remove(&mut self, contract_addr: &String, acl_decision: Option<bool>) -> (r: Result<
        (),
        ContractError,
    >)
        requires
            old(self).wf(),
            old(self).addr_to_id@.contains_key(contract_addr@) ==> old(self).count >= 1,
        ensures
            final(self).wf(),
            !old(self).spec_is_allowed(contract_addr@, acl_decision) ==> r == Result::<(),
                ContractError,
            >::Err(ContractError::NotAuthorized) && *final(self) == *old(self),
            old(self).spec_is_allowed(contract_addr@, acl_decision) && !old(self).addr_to_id@.contains_key(contract_addr@) ==> r == Result::<(), ContractError>::Err(
                ContractError::NotFound,
            ) && *final(self) == *old(self),
            old(self).spec_is_allowed(contract_addr@, acl_decision) && old(self).addr_to_id@.contains_key(contract_addr@) ==> {
                let id = old(self).addr_to_id@[contract_addr@];
                &&& r is Ok
                &&& final(self).addr_to_id@ == old(self).addr_to_id@.remove(contract_addr@)
                &&& final(self).id_to_addr@ == old(self).id_to_addr@.remove(id)
                &&& final(self).metadata@ == old(self).metadata@.remove(id)
                &&& final(self).id_to_values@ == old(self).id_to_values@.remove(id)
                &&& final(self).count == old(self).count - 1
                &&& forall|e: EntryView|
                    #[trigger] final(self).tags@.contains(e) <==> (old(self).tags@.contains(e)
                        && e.1 != id)
                &&& forall|e: EntryView|
                    #[trigger] final(self).relationships@.contains(e) <==> (old(self).relationships@.contains(e) && e.1 != id)
                &&& forall|s: int, e: EntryView|
                    0 <= s < crate::SLOT_COUNT ==> ((#[trigger] final(self).u64_tables@[s]@.contains(
                        e,
                    )) <==> (old(self).u64_tables@[s]@.contains(e) && e.1 != id))
                &&& forall|s: int, e: EntryView|
                    0 <= s < crate::SLOT_COUNT ==> ((#[trigger] final(self).u128_tables@[s]@.contains(e)) <==> (old(self).u128_tables@[s]@.contains(e)
                        && e.1 != id))
                &&& forall|s: int, e: EntryView|
                    0 <= s < crate::SLOT_COUNT ==> ((#[trigger] final(self).text_tables@[s]@.contains(e)) <==> (old(self).text_tables@[s]@.contains(e)
                        && e.1 != id))
                &&& forall|s: int, e: EntryView|
                    0 <= s < crate::SLOT_COUNT ==> ((#[trigger] final(self).ts_tables@[s]@.contains(
                        e,
                    )) <==> (old(self).ts_tables@[s]@.contains(e) && e.1 != id))
                &&& forall|s: int, e: EntryView|
                    0 <= s < crate::SLOT_COUNT ==> ((#[trigger] final(self).bool_tables@[s]@.contains(e)) <==> (old(self).bool_tables@[s]@.contains(e)
                        && e.1 != id))
                &&& forall|s: int|
                    0 <= s < crate::SLOT_COUNT ==> match #[trigger] final(self).u64_meta@[s] {
                        Option::Some(m) => old(self).u64_meta@[s] matches Option::Some(om) && m@
                            == (crate::models::MetaView {
                            size: final(self).u64_tables@[s]@.len() as u64,
                            ..om@
                        }),
                        Option::None => old(self).u64_meta@[s] is None,
                    }
                &&& forall|s: int|
                    0 <= s < crate::SLOT_COUNT ==> match #[trigger] final(self).u128_meta@[s] {
                        Option::Some(m) => old(self).u128_meta@[s] matches Option::Some(om) && m@
                            == (crate::models::MetaView {
                            size: final(self).u128_tables@[s]@.len() as u64,
                            ..om@
                        }),
                        Option::None => old(self).u128_meta@[s] is None,
                    }
                &&& forall|s: int|
                    0 <= s < crate::SLOT_COUNT ==> match #[trigger] final(self).text_meta@[s] {
                        Option::Some(m) => old(self).text_meta@[s] matches Option::Some(om) && m@
                            == (crate::models::MetaView {
                            size: final(self).text_tables@[s]@.len() as u64,
                            ..om@
                        }),
                        Option::None => old(self).text_meta@[s] is None,
                    }
                &&& forall|s: int|
                    0 <= s < crate::SLOT_COUNT ==> match #[trigger] final(self).ts_meta@[s] {
                        Option::Some(m) => old(self).ts_meta@[s] matches Option::Some(om) && m@
                            == (crate::models::MetaView {
                            size: final(self).ts_tables@[s]@.len() as u64,
                            ..om@
                        }),
                        Option::None => old(self).ts_meta@[s] is None,
                    }
                &&& forall|s: int|
                    0 <= s < crate::SLOT_COUNT ==> match #[trigger] final(self).bool_meta@[s] {
                        Option::Some(m) => old(self).bool_meta@[s] matches Option::Some(om) && m@
                            == (crate::models::MetaView {
                            size: final(self).bool_tables@[s]@.len() as u64,
                            ..om@
                        }),
                        Option::None => old(self).bool_meta@[s] is None,
                    }
                &&& final(self).created_by == old(self).created_by
                &&& final(self).acl_address == old(self).acl_address
                &&& final(self).default_label == old(self).default_label
                &&& final(self).default_code_id == old(self).default_code_id
                &&& final(self).allowed_code_ids == old(self).allowed_code_ids
                &&& final(self).next_id == old(self).next_id
                &&& final(self).presets@ == old(self).presets@
                &&& final(self).ix_created_by@ == old(self).ix_created_by@
            },
    {
        let ghost pre = *old(self);
        if !self.is_allowed(contract_addr, acl_decision) {
            return Result::Err(ContractError::NotAuthorized);
        }
        let id = match self.addr_to_id.get(contract_addr) {
            Option::Some(v) => *v,
            Option::None => {
                return Result::Err(ContractError::NotFound);
            },
        };
        let meta: ContractMetadata = *self.metadata.get(id).unwrap();
        // drop the bindings, the metadata and the values record
        self.addr_to_id.remove(contract_addr);
        self.id_to_addr.remove(id);
        self.metadata.remove(id);
        self.id_to_values.remove(id);
        // tear down the built-in index entries
        self.ix_created_at.remove(&make_u64_key(meta.created_at), id);
        self.ix_updated_at.remove(&make_u64_key(meta.updated_at), id);
        self.ix_rev.remove(&make_u64_key(meta.rev), id);
        self.ix_height.remove(&make_u64_key(meta.height), id);
        self.ix_code_id.remove(&make_u64_key(meta.code_id), id);
        self.ix_address.remove(&make_text_key(contract_addr.as_str()), id);
        // tear down the custom index entries and recount the slots
        self.purge_custom_entries(id);
        // tear down the tag and relationship associations
        self.tags.remove_id(id);
        self.tags_size = self.tags.len() as u64;
        self.relationships.remove_id(id);
        self.relationships_size = self.relationships.len() as u64;
        self.count = self.count - 1;
        proof {
            let post = *self;
            assert(post.slots_wf());
            assert(post.containers_wf());
            assert(post.values_wf());
            assert(post.sync_invariant()) by {
                assert forall|s2: int|
                    0 <= s2 < crate::SLOT_COUNT implies #[trigger] post.u64_slot_synced(s2) by {
                    assert(pre.u64_slot_synced(s2));
                    assert forall|k: KeyView, i: u64| #[trigger] post.u64_tables@[s2]@.contains(
                        (k, i),
                    ) <==> (post.id_to_values@.contains_key(i) && match post.id_to_values@[i].uint64[s2] {
                        Option::Some(v) => k == u64_key(v),
                        Option::None => false,
                    }) by {
                        if i != id && pre.id_to_values@.contains_key(i) {
                            assert(post.id_to_values@[i] == pre.id_to_values@[i]);
                        }
                    }
                }
                assert forall|s2: int|
                    0 <= s2 < crate::SLOT_COUNT implies #[trigger] post.u128_slot_synced(s2) by {
                    assert(pre.u128_slot_synced(s2));
                    assert forall|k: KeyView, i: u64| #[trigger] post.u128_tables@[s2]@.contains(
                        (k, i),
                    ) <==> (post.id_to_values@.contains_key(i) && match post.id_to_values@[i].uint128[s2] {
                        Option::Some(v) => k == u128_key(v),
                        Option::None => false,
                    }) by {
                        if i != id && pre.id_to_values@.contains_key(i) {
                            assert(post.id_to_values@[i] == pre.id_to_values@[i]);
                        }
                    }
                }
                assert forall|s2: int|
                    0 <= s2 < crate::SLOT_COUNT implies #[trigger] post.text_slot_synced(s2) by {
                    assert(pre.text_slot_synced(s2));
                    assert forall|k: KeyView, i: u64| #[trigger] post.text_tables@[s2]@.contains(
                        (k, i),
                    ) <==> (post.id_to_values@.contains_key(i) && match post.id_to_values@[i].text[s2] {
                        Option::Some(v) => k == crate::state::text_key(v),
                        Option::None => false,
                    }) by {
                        if i != id && pre.id_to_values@.contains_key(i) {
                            assert(post.id_to_values@[i] == pre.id_to_values@[i]);
                        }
                    }
                }
                assert forall|s2: int|
                    0 <= s2 < crate::SLOT_COUNT implies #[trigger] post.ts_slot_synced(s2) by {
                    assert(pre.ts_slot_synced(s2));
                    assert forall|k: KeyView, i: u64| #[trigger] post.ts_tables@[s2]@.contains(
                        (k, i),
                    ) <==> (post.id_to_values@.contains_key(i) && match post.id_to_values@[i].timestamp[s2] {
                        Option::Some(v) => k == u64_key(v),
                        Option::None => false,
                    }) by {
                        if i != id && pre.id_to_values@.contains_key(i) {
                            assert(post.id_to_values@[i] == pre.id_to_values@[i]);
                        }
                    }
                }
                assert forall|s2: int|
                    0 <= s2 < crate::SLOT_COUNT implies #[trigger] post.bool_slot_synced(s2) by {
                    assert(pre.bool_slot_synced(s2));
                    assert forall|k: KeyView, i: u64| #[trigger] post.bool_tables@[s2]@.contains(
                        (k, i),
                    ) <==> (post.id_to_values@.contains_key(i) && match post.id_to_values@[i].boolean[s2] {
                        Option::Some(v) => k == bool_key(v),
                        Option::None => false,
                    }) by {
                        if i != id && pre.id_to_values@.contains_key(i) {
                            assert(post.id_to_values@[i] == pre.id_to_values@[i]);
                        }
                    }
                }
            }
            assert(usize::MAX <= u64::MAX);
            assert(post.size_invariant()) by {
                assert forall|s2: int| 0 <= s2 < crate::SLOT_COUNT implies match #[trigger] post.u64_meta@[s2] {
                    Option::Some(m) => m@.size == post.u64_tables@[s2]@.len(),
                    Option::None => post.u64_tables@[s2]@.len() == 0,
                } by {
                    assert(post.u64_tables@[s2]@.len() <= usize::MAX);
                    if post.u64_meta@[s2] is None && post.u64_tables@[s2]@.len() > 0 {
                        assert(post.u64_tables@[s2]@.contains(post.u64_tables@[s2]@[0]));
                        assert(pre.u64_tables@[s2]@.contains(post.u64_tables@[s2]@[0]));
                        assert(pre.u64_tables@[s2]@.len() == 0);
                    }
                }
                assert forall|s2: int| 0 <= s2 < crate::SLOT_COUNT implies match #[trigger] post.u128_meta@[s2] {
                    Option::Some(m) => m@.size == post.u128_tables@[s2]@.len(),
                    Option::None => post.u128_tables@[s2]@.len() == 0,
                } by {
                    assert(post.u128_tables@[s2]@.len() <= usize::MAX);
                    if post.u128_meta@[s2] is None && post.u128_tables@[s2]@.len() > 0 {
                        assert(post.u128_tables@[s2]@.contains(post.u128_tables@[s2]@[0]));
                        assert(pre.u128_tables@[s2]@.contains(post.u128_tables@[s2]@[0]));
                        assert(pre.u128_tables@[s2]@.len() == 0);
                    }
                }
                assert forall|s2: int| 0 <= s2 < crate::SLOT_COUNT implies match #[trigger] post.text_meta@[s2] {
                    Option::Some(m) => m@.size == post.text_tables@[s2]@.len(),
                    Option::None => post.text_tables@[s2]@.len() == 0,
                } by {
                    assert(post.text_tables@[s2]@.len() <= usize::MAX);
                    if post.text_meta@[s2] is None && post.text_tables@[s2]@.len() > 0 {
                        assert(post.text_tables@[s2]@.contains(post.text_tables@[s2]@[0]));
                        assert(pre.text_tables@[s2]@.contains(post.text_tables@[s2]@[0]));
                        assert(pre.text_tables@[s2]@.len() == 0);
                    }
                }
                assert forall|s2: int| 0 <= s2 < crate::SLOT_COUNT implies match #[trigger] post.ts_meta@[s2] {
                    Option::Some(m) => m@.size == post.ts_tables@[s2]@.len(),
                    Option::None => post.ts_tables@[s2]@.len() == 0,
                } by {
                    assert(post.ts_tables@[s2]@.len() <= usize::MAX);
                    if post.ts_meta@[s2] is None && post.ts_tables@[s2]@.len() > 0 {
                        assert(post.ts_tables@[s2]@.contains(post.ts_tables@[s2]@[0]));
                        assert(pre.ts_tables@[s2]@.contains(post.ts_tables@[s2]@[0]));
                        assert(pre.ts_tables@[s2]@.len() == 0);
                    }
                }
                assert forall|s2: int| 0 <= s2 < crate::SLOT_COUNT implies match #[trigger] post.bool_meta@[s2] {
                    Option::Some(m) => m@.size == post.bool_tables@[s2]@.len(),
                    Option::None => post.bool_tables@[s2]@.len() == 0,
                } by {
                    assert(post.bool_tables@[s2]@.len() <= usize::MAX);
                    if post.bool_meta@[s2] is None && post.bool_tables@[s2]@.len() > 0 {
                        assert(post.bool_tables@[s2]@.contains(post.bool_tables@[s2]@[0]));
                        assert(pre.bool_tables@[s2]@.contains(post.bool_tables@[s2]@[0]));
                        assert(pre.bool_tables@[s2]@.len() == 0);
                    }
                }
            }
            assert(post.binding_invariant()) by {
                assert forall|k: KeyView, i: u64| #[trigger] post.ix_address@.contains(
                    (k, i),
                ) <==> (post.id_to_addr@.contains_key(i) && k == crate::state::text_key(
                    post.id_to_addr@[i],
                )) by {
                    if i != id && pre.id_to_addr@.contains_key(i) {
                        assert(post.id_to_addr@[i] == pre.id_to_addr@[i]);
                    }
                    if i == id {
                        assert(pre.id_to_addr@[id] == contract_addr@);
                    }
                }
            }
            assert(post.builtin_invariant()) by {
                assert forall|k: KeyView, i: u64| #[trigger] post.ix_created_at@.contains(
                    (k, i),
                ) <==> (post.metadata@.contains_key(i) && k == u64_key(
                    post.metadata@[i].created_at,
                )) by {
                    if i != id && pre.metadata@.contains_key(i) {
                        assert(post.metadata@[i] == pre.metadata@[i]);
                    }
                }
                assert forall|k: KeyView, i: u64| #[trigger] post.ix_updated_at@.contains(
                    (k, i),
                ) <==> (post.metadata@.contains_key(i) && k == u64_key(
                    post.metadata@[i].updated_at,
                )) by {
                    if i != id && pre.metadata@.contains_key(i) {
                        assert(post.metadata@[i] == pre.metadata@[i]);
                    }
                }
                assert forall|k: KeyView, i: u64| #[trigger] post.ix_rev@.contains((k, i)) <==> (
                post.metadata@.contains_key(i) && k == u64_key(post.metadata@[i].rev)) by {
                    if i != id && pre.metadata@.contains_key(i) {
                        assert(post.metadata@[i] == pre.metadata@[i]);
                    }
                }
                assert forall|k: KeyView, i: u64| #[trigger] post.ix_code_id@.contains(
                    (k, i),
                ) <==> (post.metadata@.contains_key(i) && k == u64_key(
                    post.metadata@[i].code_id,
                )) by {
                    if i != id && pre.metadata@.contains_key(i) {
                        assert(post.metadata@[i] == pre.metadata@[i]);
                    }
                }
                assert forall|k: KeyView, i: u64| #[trigger] post.ix_height@.contains((k, i)) <==> (
                post.metadata@.contains_key(i) && k == u64_key(post.metadata@[i].height)) by {
                    if i != id && pre.metadata@.contains_key(i) {
                        assert(post.metadata@[i] == pre.metadata@[i]);
                    }
                }
            }
        }
        Result::Ok(())
    }
}


/// When no table and no values record moved, the sync invariant
/// carries over unchanged.
proof fn lemma_sync_preserved(pre: Registry, post: Registry)
    requires
        pre.sync_invariant(),
        post.u64_tables@ == pre.u64_tables@,
        post.u128_tables@ == pre.u128_tables@,
        post.text_tables@ == pre.text_tables@,
        post.ts_tables@ == pre.ts_tables@,
        post.bool_tables@ == pre.bool_tables@,
        post.id_to_values@ == pre.id_to_values@,
    ensures
        post.sync_invariant(),
{
    assert forall|s2: int|
        0 <= s2 < crate::SLOT_COUNT implies #[trigger] post.u64_slot_synced(s2) by {
        assert(pre.u64_slot_synced(s2));
    }
    assert forall|s2: int|
        0 <= s2 < crate::SLOT_COUNT implies #[trigger] post.u128_slot_synced(s2) by {
        assert(pre.u128_slot_synced(s2));
    }
    assert forall|s2: int|
        0 <= s2 < crate::SLOT_COUNT implies #[trigger] post.text_slot_synced(s2) by {
        assert(pre.text_slot_synced(s2));
    }
    assert forall|s2: int|
        0 <= s2 < crate::SLOT_COUNT implies #[trigger] post.ts_slot_synced(s2) by {
        assert(pre.ts_slot_synced(s2));
    }
    assert forall|s2: int|
        0 <= s2 < crate::SLOT_COUNT implies #[trigger] post.bool_slot_synced(s2) by {
        assert(pre.bool_slot_synced(s2));
    }
}

/// The decimal digits of `v`, as characters.
pub open spec fn dec_chars(v: u128) -> Seq<char> {
    crate::keys::dec_bytes(v).map(|_i: int, b: u8| b as char)
}

/// Relies on `format!` of core: renders the base label, a dash, and the
/// id in decimal.
#[verifier::external_body]
fn format_label(base: &str, n: u64) -> (r: String)
    ensures
        r@ == base@ + seq!['-'] + dec_chars(n as u128),
{
    format!("{}-{:?}", base, n)
}

/// What a create call hands back for the host to instantiate the
/// managed contract with.
#[derive(Debug)]
pub struct CreateOutcome {
    /// The item id reserved for the new contract.
    pub contract_id: u64,
    /// The code id to instantiate.
    pub code_id: u64,
    /// The instantiate payload.
    pub msg: Vec<u8>,
    /// The label to instantiate under.
    pub label: String,
    /// The admin address, if any.
    pub admin: Option<String>,
}

impl Registry {
    /// Builds the label for a new managed contract: the caller's label,
    /// or the default label suffixed with the item id.
    fn build_label(&self, custom_label: &Option<String>, n: u64) -> (r: Result<
        String,
        ContractError,
    >)
        ensures
            match r {
                Result::Ok(l) => match custom_label {
                    Option::Some(c) => l@ == c@,
                    Option::None => self.default_label matches Option::Some(d) && l@ == d@
                        + seq!['-'] + dec_chars(n as u128),
                },
                Result::Err(e) => custom_label is None && self.default_label is None && e == (
                ContractError::LabelRequired),
            },
    {
        match custom_label {
            Option::Some(l) => Result::Ok(l.clone()),
            Option::None => match &self.default_label {
                Option::Some(d) => Result::Ok(format_label(d.as_str(), n)),
                Option::None => Result::Err(ContractError::LabelRequired),
            },
        }
    }

    /// Points the registry at an access-control contract.
    pub fn set_acl(
        &mut self,
        sender: &String,
        acl_decision: Option<bool>,
        acl_contract_addr: &String,
    ) -> (r: Result<(), ContractError>)
        requires
            old(self).wf(),
        ensures
            final(self).wf(),
            !old(self).spec_is_allowed(sender@, acl_decision) ==> r == Result::<(),
                ContractError,
            >::Err(ContractError::NotAuthorized) && *final(self) == *old(self),
            old(self).spec_is_allowed(sender@, acl_decision) ==> {
                &&& r is Ok
                &&& final(self).acl_address matches Option::Some(a)
                &&& a@ == acl_contract_addr@
                &&& *final(self) == (Registry { acl_address: final(self).acl_address, ..*old(self) })
            },
    {
        if !self.is_allowed(sender, acl_decision) {
            return Result::Err(ContractError::NotAuthorized);
        }
        self.acl_address = Option::Some(acl_contract_addr.clone());
        proof {
            lemma_sync_preserved(*old(self), *self);
        }
        Result::Ok(())
    }

    /// Replaces the allow list of code ids.
    pub fn update_allowed_code_ids(
        &mut self,
        sender: &String,
        acl_decision: Option<bool>,
        code_ids: &Vec<u64>,
    ) -> (r: Result<(), ContractError>)
        requires
            old(self).wf(),
        ensures
            final(self).wf(),
            !old(self).spec_is_allowed(sender@, acl_decision) ==> r == Result::<(),
                ContractError,
            >::Err(ContractError::NotAuthorized) && *final(self) == *old(self),
            old(self).spec_is_allowed(sender@, acl_decision) ==> {
                &&& r is Ok
                &&& forall|c: u64|
                    final(self).allowed_code_ids@.contains(c) <==> code_ids@.contains(c)
                &&& *final(self) == (Registry {
                    allowed_code_ids: final(self).allowed_code_ids,
                    ..*old(self)
                })
            },
    {
        if !self.is_allowed(sender, acl_decision) {
            return Result::Err(ContractError::NotAuthorized);
        }
        self.allowed_code_ids.clear();
        let mut i: usize = 0;
        while i < code_ids.len()
            invariant
                i <= code_ids@.len(),
                self.allowed_code_ids.wf(),
                forall|c: u64|
                    self.allowed_code_ids@.contains(c) <==> code_ids@.take(i as int).contains(c),
                *self == (Registry { allowed_code_ids: self.allowed_code_ids, ..*old(self) }),
            decreases code_ids@.len() - i,
        {
            self.allowed_code_ids.insert(code_ids[i]);
            proof {
                assert forall|c: u64| self.allowed_code_ids@.contains(c) <==> code_ids@.take(
                    i + 1,
                ).contains(c) by {
                    if code_ids@.take(i + 1).contains(c) {
                        let j = choose|j: int|
                            0 <= j < i + 1 && #[trigger] code_ids@.take(i + 1)[j] == c;
                        if j < i {
                            assert(code_ids@.take(i as int)[j] == c);
                            assert(code_ids@.take(i as int).contains(c));
                        }
                    }
                    if code_ids@.take(i as int).contains(c) {
                        let j = choose|j: int|
                            0 <= j < i && #[trigger] code_ids@.take(i as int)[j] == c;
                        assert(code_ids@.take(i + 1)[j] == c);
                        assert(code_ids@.take(i + 1).contains(c));
                    }
                    if c == code_ids@[i as int] {
                        assert(code_ids@.take(i + 1)[i as int] == c);
                        assert(code_ids@.take(i + 1).contains(c));
                    }
                }
            }
            i = i + 1;
        }
        proof {
            assert(code_ids@.take(code_ids@.len() as int) =~= code_ids@);
            lemma_sync_preserved(*old(self), *self);
        }
        Result::Ok(())
    }

    /// Drops one of the caller's stored presets.
    pub fn remove_preset(&mut self, sender: &String, preset_name: &String) -> (r: Result<
        (),
        ContractError,
    >)
        requires
            old(self).wf(),
        ensures
            final(self).wf(),
            !old(self).presets@.contains_key((sender@, preset_name@)) ==> r == Result::<(),
                ContractError,
            >::Err(ContractError::NotAuthorized) && *final(self) == *old(self),
            old(self).presets@.contains_key((sender@, preset_name@)) ==> {
                &&& r is Ok
                &&& final(self).presets@ == old(self).presets@.remove((sender@, preset_name@))
                &&& *final(self) == (Registry { presets: final(self).presets, ..*old(self) })
            },
    {
        if !self.presets.contains_key(sender, preset_name) {
            return Result::Err(ContractError::NotAuthorized);
        }
        self.presets.remove(sender, preset_name);
        proof {
            lemma_sync_preserved(*old(self), *self);
        }
        Result::Ok(())
    }

    /// Renames a custom index slot; returns the old and new display
    /// names, an empty string standing for none.
    pub fn rename_index(
        &mut self,
        sender: &String,
        acl_decision: Option<bool>,
        kind: ValueKind,
        slot: u8,
        name: &Option<String>,
    ) -> (r: Result<(String, String), ContractError>)
        requires
            old(self).wf(),
        ensures
            final(self).wf(),
            !old(self).spec_is_allowed(sender@, acl_decision) ==> r == Result::<(String, String),
                ContractError,
            >::Err(ContractError::NotAuthorized) && *final(self) == *old(self),
            old(self).spec_is_allowed(sender@, acl_decision) && slot >= crate::SLOT_COUNT ==> r
                == Result::<(String, String), ContractError>::Err(
                ContractError::SlotOutOfBounds { slot },
            ) && *final(self) == *old(self),
            old(self).spec_is_allowed(sender@, acl_decision) && slot < crate::SLOT_COUNT && old(
                self,
            ).meta_of(kind, slot as int) is None ==> r == Result::<(String, String),
                ContractError,
            >::Err(ContractError::InvalidIndexSlot) && *final(self) == *old(self),
            (old(self).spec_is_allowed(sender@, acl_decision) && slot < crate::SLOT_COUNT
                && old(self).meta_of(kind, slot as int) is Some) ==> {
                let om = old(self).meta_of(kind, slot as int)->0;
                &&& r matches Result::Ok(names)
                &&& names.0@ == match om@.name {
                    Option::Some(n) => n,
                    Option::None => Seq::<char>::empty(),
                }
                &&& names.1@ == match name {
                    Option::Some(n) => n@,
                    Option::None => Seq::<char>::empty(),
                }
                &&& final(self).meta_of(kind, slot as int) matches Option::Some(nm)
                &&& nm@ == (crate::models::MetaView {
                    name: crate::state::opt_str_view(*name),
                    ..om@
                })
                &&& Registry::meta_frame(*old(self), *final(self), kind, slot as int)
            },
    {
        if !self.is_allowed(sender, acl_decision) {
            return Result::Err(ContractError::NotAuthorized);
        }
        if slot >= crate::SLOT_COUNT {
            return Result::Err(ContractError::SlotOutOfBounds { slot });
        }
        let s = slot as usize;
        let current: Option<IndexMetadata> = match kind {
            ValueKind::Uint64 => match &self.u64_meta[s] {
                Option::Some(m) => Option::Some(m.clone()),
                Option::None => Option::None,
            },
            ValueKind::Uint128 => match &self.u128_meta[s] {
                Option::Some(m) => Option::Some(m.clone()),
                Option::None => Option::None,
            },
            ValueKind::Text => match &self.text_meta[s] {
                Option::Some(m) => Option::Some(m.clone()),
                Option::None => Option::None,
            },
            ValueKind::Timestamp => match &self.ts_meta[s] {
                Option::Some(m) => Option::Some(m.clone()),
                Option::None => Option::None,
            },
            ValueKind::Boolean => match &self.bool_meta[s] {
                Option::Some(m) => Option::Some(m.clone()),
                Option::None => Option::None,
            },
        };
        let mut meta = match current {
            Option::Some(m) => m,
            Option::None => {
                return Result::Err(ContractError::InvalidIndexSlot);
            },
        };
        let old_name: String = match &meta.name {
            Option::Some(n) => n.clone(),
            Option::None => String::new(),
        };
        let new_name: String = match name {
            Option::Some(n) => n.clone(),
            Option::None => String::new(),
        };
        meta.name = match name {
            Option::Some(n) => Option::Some(n.clone()),
            Option::None => Option::None,
        };
        let stored = meta.clone();
        match kind {
            ValueKind::Uint64 => {
                self.u64_meta[s] = Option::Some(stored);
            },
            ValueKind::Uint128 => {
                self.u128_meta[s] = Option::Some(stored);
            },
            ValueKind::Text => {
                self.text_meta[s] = Option::Some(stored);
            },
            ValueKind::Timestamp => {
                self.ts_meta[s] = Option::Some(stored);
            },
            ValueKind::Boolean => {
                self.bool_meta[s] = Option::Some(stored);
            },
        }
        proof {
            assert(Registry::meta_frame(*old(self), *self, kind, slot as int));
            lemma_sync_preserved(*old(self), *self);
        }
        Result::Ok((old_name, new_name))
    }
}


/// The model of a list of address tags.
pub open spec fn addr_tags_view(v: Seq<crate::models::AddressTag>) -> Seq<(Seq<char>, Seq<char>)> {
    Seq::new(v.len(), |i: int| v[i]@)
}

/// A values record with every slot of every kind empty.
pub open spec fn empty_values() -> IndexedValuesView {
    IndexedValuesView {
        uint64: Seq::new(crate::SLOT_COUNT as nat, |_i: int| Option::None),
        uint128: Seq::new(crate::SLOT_COUNT as nat, |_i: int| Option::None),
        text: Seq::new(crate::SLOT_COUNT as nat, |_i: int| Option::None),
        timestamp: Seq::new(crate::SLOT_COUNT as nat, |_i: int| Option::None),
        boolean: Seq::new(crate::SLOT_COUNT as nat, |_i: int| Option::None),
    }
}

/// How the registry and the returned ticket look after a successful
/// create.
pub open spec fn create_success(
    pre: Registry,
    post: Registry,
    out: CreateOutcome,
    sender: Seq<char>,
    msg: Seq<u8>,
    inds_opt: Option<Seq<SlotValueView>>,
    save_as: Option<Seq<char>>,
    tags_opt: Option<Seq<Seq<char>>>,
    rels: Seq<(Seq<char>, Seq<char>)>,
    now: u64,
    cid: u64,
    id: u64,
    inds: Seq<SlotValueView>,
    tags: Seq<Seq<char>>,
    resolved_admin: Seq<char>,
    out_label: Seq<char>,
) -> bool {
        &&& out.contract_id == id
        &&& out.code_id == cid
        &&& out.msg@ == msg
        &&& out.label@ == out_label
        &&& out.admin matches Option::Some(a) && a@ == resolved_admin
        &&& post.next_id == id + 1
        &&& post.count == pre.count + 1
        &&& post.id_to_values@ == pre.id_to_values@.insert(
            id,
            apply_updates(empty_values(), inds),
        )
        &&& metas_touched(pre, post, inds, id, now)
        &&& forall|e: EntryView|
            #[trigger] post.tags@.contains(e) <==> (pre.tags@.contains(e) || exists|j: int|
                0 <= j < tags.len() && e == (crate::state::text_key(#[trigger] tags[j]), id))
        &&& forall|e: EntryView|
            #[trigger] post.relationships@.contains(e) <==> (pre.relationships@.contains(e)
                || exists|j: int|
                0 <= j < rels.len() && e == (
                    crate::state::rel_key((#[trigger] rels[j]).0, rels[j].1),
                    id,
                ))
        &&& forall|e: EntryView|
            #[trigger] post.ix_created_by@.contains(e) <==> (pre.ix_created_by@.contains(e) || e
                == (crate::state::text_key(sender), id))
        &&& post.presets@ == (match save_as {
            Option::Some(n) => pre.presets@.insert(
                (sender, n),
                crate::models::PresetView {
                    code_id: Option::Some(cid),
                    msg,
                    admin: Option::Some(resolved_admin),
                    indices: inds_opt,
                    label: Option::Some(out_label),
                    tags: tags_opt,
                },
            ),
            Option::None => pre.presets@,
        })
        &&& post.metadata@ == pre.metadata@
        &&& post.id_to_addr@ == pre.id_to_addr@
        &&& post.addr_to_id@ == pre.addr_to_id@
        &&& post == (Registry {
            count: post.count,
            next_id: post.next_id,
            id_to_values: post.id_to_values,
            u64_tables: post.u64_tables,
            u128_tables: post.u128_tables,
            text_tables: post.text_tables,
            ts_tables: post.ts_tables,
            bool_tables: post.bool_tables,
            u64_meta: post.u64_meta,
            u128_meta: post.u128_meta,
            text_meta: post.text_meta,
            ts_meta: post.ts_meta,
            bool_meta: post.bool_meta,
            tags: post.tags,
            tags_size: post.tags_size,
            relationships: post.relationships,
            relationships_size: post.relationships_size,
            ix_created_by: post.ix_created_by,
            presets: post.presets,
            ..pre
        })
}

/// Everything a create call promises: which input is refused with
/// which error and the state untouched, and on success how the
/// registry and the returned instantiation ticket look.
pub open spec fn create_behavior(
    pre: Registry,
    post: Registry,
    r: Result<CreateOutcome, ContractError>,
    sender: Seq<char>,
    acl_decision: Option<bool>,
    code: Option<u64>,
    msg: Seq<u8>,
    admin: Option<Seq<char>>,
    label: Option<Seq<char>>,
    inds_opt: Option<Seq<SlotValueView>>,
    save_as: Option<Seq<char>>,
    tags_opt: Option<Seq<Seq<char>>>,
    rels: Seq<(Seq<char>, Seq<char>)>,
    self_addr: Seq<char>,
    now: u64,
) -> bool {
    let cid = match code {
        Option::Some(c) => c,
        Option::None => pre.default_code_id,
    };
    let id = pre.next_id;
    let inds = match inds_opt {
        Option::Some(l) => l,
        Option::None => Seq::empty(),
    };
    let tags = match tags_opt {
        Option::Some(l) => l,
        Option::None => Seq::empty(),
    };
    let resolved_admin = match admin {
        Option::Some(a) => a,
        Option::None => self_addr,
    };
    let out_label = match label {
        Option::Some(l) => l,
        Option::None => match pre.default_label {
            Option::Some(d) => d@ + seq!['-'] + dec_chars(id as u128),
            Option::None => Seq::empty(),
        },
    };
    if !pre.spec_is_allowed(sender, acl_decision) {
        r matches Result::Err(ContractError::NotAuthorized) && post == pre
    } else if !pre.allowed_code_ids@.contains(cid) {
        r matches Result::Err(ContractError::CodeIdNotAllowed) && post == pre
    } else if updates_error_from(pre, inds, 0) is Some {
        r == Result::<CreateOutcome, ContractError>::Err(updates_error_from(pre, inds, 0)->0)
            && post == pre
    } else if label is None && pre.default_label is None {
        r matches Result::Err(ContractError::LabelRequired) && post == pre
    } else if save_as is Some && pre.presets@.contains_key((sender, save_as->0)) {
        r matches Result::Err(ContractError::PresetExists) && post == pre
    } else {
        &&& r matches Result::Ok(out)
        &&& create_success(
            pre,
            post,
            out,
            sender,
            msg,
            inds_opt,
            save_as,
            tags_opt,
            rels,
            now,
            cid,
            id,
            inds,
            tags,
            resolved_admin,
            out_label,
        )
    }
}

impl Registry {
    /// Reserves the next item id and starts its values record empty.
    fn seed_item(&mut self) -> (id: u64)
        requires
            old(self).wf(),
            old(self).next_id < u64::MAX,
            old(self).count < u64::MAX,
        ensures
            final(self).wf(),
            id == old(self).next_id,
            final(self).next_id == old(self).next_id + 1,
            final(self).count == old(self).count + 1,
            final(self).id_to_values@ == old(self).id_to_values@.insert(id, empty_values()),
            final(self).id_to_values@.contains_key(id),
            forall|kind: ValueKind, s: int|
                #[trigger] final(self).meta_of(kind, s) == old(self).meta_of(kind, s),
            *final(self) == (Registry {
                next_id: final(self).next_id,
                count: final(self).count,
                id_to_values: final(self).id_to_values,
                ..*old(self)
            }),
    {
        let ghost spre = *old(self);
        let id = self.get_next_contract_id();
        self.id_to_values.insert(id, IndexedValues::new());
        proof {
            let post = *self;
            assert(post.id_to_values@[id].uint64 =~= empty_values().uint64);
            assert(post.id_to_values@[id].uint128 =~= empty_values().uint128);
            assert(post.id_to_values@[id].text =~= empty_values().text);
            assert(post.id_to_values@[id].timestamp =~= empty_values().timestamp);
            assert(post.id_to_values@[id].boolean =~= empty_values().boolean);
            assert(post.id_to_values@[id] =~= empty_values());
            assert(post.id_to_values@ =~= spre.id_to_values@.insert(id, empty_values()));
            assert(post.slots_wf());
            assert(post.containers_wf());
            assert(post.values_wf());
            assert(post.sync_invariant()) by {
                assert forall|s2: int|
                    0 <= s2 < crate::SLOT_COUNT implies #[trigger] post.u64_slot_synced(s2) by {
                    assert(spre.u64_slot_synced(s2));
                    assert forall|k: KeyView, i: u64| #[trigger] post.u64_tables@[s2]@.contains(
                        (k, i),
                    ) <==> (post.id_to_values@.contains_key(i) && match post.id_to_values@[i].uint64[s2] {
                        Option::Some(v) => k == u64_key(v),
                        Option::None => false,
                    }) by {
                        if i != id && spre.id_to_values@.contains_key(i) {
                            assert(post.id_to_values@[i] == spre.id_to_values@[i]);
                        }
                        if i == id {
                            assert(!spre.id_to_values@.contains_key(i));
                        }
                    }
                }
                assert forall|s2: int|
                    0 <= s2 < crate::SLOT_COUNT implies #[trigger] post.u128_slot_synced(s2) by {
                    assert(spre.u128_slot_synced(s2));
                    assert forall|k: KeyView, i: u64| #[trigger] post.u128_tables@[s2]@.contains(
                        (k, i),
                    ) <==> (post.id_to_values@.contains_key(i) && match post.id_to_values@[i].uint128[s2] {
                        Option::Some(v) => k == u128_key(v),
                        Option::None => false,
                    }) by {
                        if i != id && spre.id_to_values@.contains_key(i) {
                            assert(post.id_to_values@[i] == spre.id_to_values@[i]);
                        }
                        if i == id {
                            assert(!spre.id_to_values@.contains_key(i));
                        }
                    }
                }
                assert forall|s2: int|
                    0 <= s2 < crate::SLOT_COUNT implies #[trigger] post.text_slot_synced(s2) by {
                    assert(spre.text_slot_synced(s2));
                    assert forall|k: KeyView, i: u64| #[trigger] post.text_tables@[s2]@.contains(
                        (k, i),
                    ) <==> (post.id_to_values@.contains_key(i) && match post.id_to_values@[i].text[s2] {
                        Option::Some(v) => k == crate::state::text_key(v),
                        Option::None => false,
                    }) by {
                        if i != id && spre.id_to_values@.contains_key(i) {
                            assert(post.id_to_values@[i] == spre.id_to_values@[i]);
                        }
                        if i == id {
                            assert(!spre.id_to_values@.contains_key(i));
                        }
                    }
                }
                assert forall|s2: int|
                    0 <= s2 < crate::SLOT_COUNT implies #[trigger] post.ts_slot_synced(s2) by {
                    assert(spre.ts_slot_synced(s2));
                    assert forall|k: KeyView, i: u64| #[trigger] post.ts_tables@[s2]@.contains(
                        (k, i),
                    ) <==> (post.id_to_values@.contains_key(i) && match post.id_to_values@[i].timestamp[s2] {
                        Option::Some(v) => k == u64_key(v),
                        Option::None => false,
                    }) by {
                        if i != id && spre.id_to_values@.contains_key(i) {
                            assert(post.id_to_values@[i] == spre.id_to_values@[i]);
                        }
                        if i == id {
                            assert(!spre.id_to_values@.contains_key(i));
                        }
                    }
                }
                assert forall|s2: int|
                    0 <= s2 < crate::SLOT_COUNT implies #[trigger] post.bool_slot_synced(s2) by {
                    assert(spre.bool_slot_synced(s2));
                    assert forall|k: KeyView, i: u64| #[trigger] post.bool_tables@[s2]@.contains(
                        (k, i),
                    ) <==> (post.id_to_values@.contains_key(i) && match post.id_to_values@[i].boolean[s2] {
                        Option::Some(v) => k == bool_key(v),
                        Option::None => false,
                    }) by {
                        if i != id && spre.id_to_values@.contains_key(i) {
                            assert(post.id_to_values@[i] == spre.id_to_values@[i]);
                        }
                        if i == id {
                            assert(!spre.id_to_values@.contains_key(i));
                        }
                    }
                }
            }
            assert(post.size_invariant());
            assert(post.binding_invariant());
            assert(post.builtin_invariant()) by {
                assert forall|k: KeyView, i: u64| #[trigger] post.ix_created_at@.contains(
                    (k, i),
                ) <==> (post.metadata@.contains_key(i) && k == u64_key(
                    post.metadata@[i].created_at,
                )) by {}
            }
        }
        id
    }

    /// Writes a list of initial slot values for a fresh item.
    fn apply_initial_values(
        &mut self,
        updates_opt: &Option<Vec<IndexSlotValue>>,
        id: u64,
        now: u64,
        vpre_reg: Ghost<Registry>,
    )
        requires
            old(self).wf(),
            old(self).id_to_values@.contains_key(id),
            updates_error_from(*old(self), update_views(updates_opt), 0) is None,
        ensures
            final(self).wf(),
            final(self).id_to_values@ == old(self).id_to_values@.insert(
                id,
                apply_updates(old(self).id_to_values@[id], update_views(updates_opt)),
            ),
            metas_touched(*old(self), *final(self), update_views(updates_opt), id, now),
            *final(self) == (Registry {
                id_to_values: final(self).id_to_values,
                u64_tables: final(self).u64_tables,
                u128_tables: final(self).u128_tables,
                text_tables: final(self).text_tables,
                ts_tables: final(self).ts_tables,
                bool_tables: final(self).bool_tables,
                u64_meta: final(self).u64_meta,
                u128_meta: final(self).u128_meta,
                text_meta: final(self).text_meta,
                ts_meta: final(self).ts_meta,
                bool_meta: final(self).bool_meta,
                ..*old(self)
            }),
    {
        let ghost mid = *old(self);
        let ghost vpre_reg = *old(self);
        let ghost pre = *old(self);
        let ghost lv = update_views(updates_opt);
        // write the initial slot values through the update helpers
        if let Option::Some(updates) = updates_opt {
            let mut i: usize = 0;
            while i < updates.len()
                invariant
                    i <= updates@.len(),
                    lv == crate::models::slot_values_view(updates@),
                    lv.len() == updates@.len(),
                    forall|j: int| 0 <= j < updates@.len() ==> lv[j] == (#[trigger] updates@[j])@,
                    updates_error_from(vpre_reg, lv, 0) is None,
                    self.wf(),
                    mid.wf(),
                    mid.id_to_values@.contains_key(id),
                    forall|kind: ValueKind, s: int|
                        #[trigger] mid.meta_of(kind, s) == vpre_reg.meta_of(kind, s),
                    self.id_to_values@ == mid.id_to_values@.insert(
                        id,
                        apply_updates(mid.id_to_values@[id], lv.take(i as int)),
                    ),
                    self.metadata@ == mid.metadata@,
                    metas_touched(mid, *self, lv.take(i as int), id, now),
                    *self == (Registry {
                        id_to_values: self.id_to_values,
                        u64_tables: self.u64_tables,
                        u128_tables: self.u128_tables,
                        text_tables: self.text_tables,
                        ts_tables: self.ts_tables,
                        bool_tables: self.bool_tables,
                        u64_meta: self.u64_meta,
                        u128_meta: self.u128_meta,
                        text_meta: self.text_meta,
                        ts_meta: self.ts_meta,
                        bool_meta: self.bool_meta,
                        ..mid
                    }),
                decreases updates@.len() - i,
            {
                let ghost steppre = *self;
                let ghost u = lv[i as int];
                proof {
                    lemma_updates_ok(vpre_reg, lv, i as int);
                    assert(u == updates@[i as int]@);
                    assert(steppre.meta_of(kind_of_value(u), slot_of_value(u) as int) is Some) by {
                        if last_update_for(
                            lv.take(i as int),
                            kind_of_value(u),
                            slot_of_value(u) as int,
                        ) is None {
                            assert(steppre.meta_of(kind_of_value(u), slot_of_value(u) as int)
                                == mid.meta_of(kind_of_value(u), slot_of_value(u) as int));
                        }
                    }
                    assert(steppre.id_to_values@.contains_key(id));
                }
                match &updates[i] {
                    IndexSlotValue::Uint64 { slot, value } => {
                        self.update_u64_index(*slot, *value, id, now);
                    },
                    IndexSlotValue::Uint128 { slot, value } => {
                        self.update_u128_index(*slot, *value, id, now);
                    },
                    IndexSlotValue::Timestamp { slot, value } => {
                        self.update_timestamp_index(*slot, *value, id, now);
                    },
                    IndexSlotValue::Text { slot, value } => {
                        self.update_text_index(*slot, value, id, now);
                    },
                    IndexSlotValue::Boolean { slot, value } => {
                        self.update_bool_index(*slot, *value, id, now);
                    },
                }
                proof {
                    let post = *self;
                    assert(slot_update_applied(steppre, post, u, id, now));
                    assert(lv.take(i + 1) =~= lv.take(i as int).push(u));
                    assert(lv.take(i + 1).drop_last() =~= lv.take(i as int));
                    assert(post.id_to_values@ =~= mid.id_to_values@.insert(
                        id,
                        apply_updates(mid.id_to_values@[id], lv.take(i + 1)),
                    ));
                    assert(metas_touched(mid, post, lv.take(i + 1), id, now)) by {
                        assert forall|kind: ValueKind, s: int|
                            0 <= s < crate::SLOT_COUNT implies match last_update_for(
                            lv.take(i + 1),
                            kind,
                            s,
                        ) {
                            Option::None => #[trigger] post.meta_of(kind, s) == mid.meta_of(
                                kind,
                                s,
                            ),
                            Option::Some(uu) => {
                                &&& mid.meta_of(kind, s) matches Option::Some(om)
                                &&& post.meta_of(kind, s) matches Option::Some(nm)
                                &&& nm@ == (crate::models::MetaView {
                                    updated_at: Option::Some(now),
                                    updated_key: Option::Some((prefix_of_value(uu), id)),
                                    size: nm@.size,
                                    ..om@
                                })
                            },
                        } by {
                            if kind == kind_of_value(u) && s == slot_of_value(u) as int {
                                assert(last_update_for(lv.take(i + 1), kind, s) == Option::Some(u));
                            } else {
                                assert(last_update_for(lv.take(i + 1), kind, s)
                                    == last_update_for(lv.take(i as int), kind, s));
                                assert(post.meta_of(kind, s) == steppre.meta_of(kind, s));
                            }
                        }
                    }
                }
                i = i + 1;
            }
            proof {
                assert(lv.take(lv.len() as int) =~= lv);
            }
        } else {
            proof {
                assert(lv.take(0) =~= lv);
            }
        }
        proof {
            assert(lv.take(lv.len() as int) =~= lv);
            if updates_opt is None {
                assert(lv.take(0) =~= lv);
                assert(self.id_to_values@ =~= mid.id_to_values@.insert(
                    id,
                    apply_updates(mid.id_to_values@[id], lv),
                ));
            }
            assert(metas_touched(mid, *self, lv, id, now));
        }
    }

    /// Records the tags of a fresh item.
    fn record_tags(&mut self, tags_opt: &Option<Vec<String>>, id: u64)
        requires
            old(self).wf(),
        ensures
            final(self).wf(),
            forall|e: EntryView|
                #[trigger] final(self).tags@.contains(e) <==> (old(self).tags@.contains(e)
                    || exists|j: int|
                    0 <= j < tag_views(tags_opt).len() && e == (
                        crate::state::text_key(#[trigger] tag_views(tags_opt)[j]),
                        id,
                    )),
            *final(self) == (Registry {
                tags: final(self).tags,
                tags_size: final(self).tags_size,
                ..*old(self)
            }),
    {
        let ghost apre = *old(self);
        let ghost tagsv = tag_views(tags_opt);
        // record the tags
        if let Option::Some(tags) = tags_opt {
            let mut ti: usize = 0;
            while ti < tags.len()
                invariant
                    ti <= tags@.len(),
                    tagsv == crate::models::strings_view(tags@),
                    tagsv.len() == tags@.len(),
                    forall|j: int| 0 <= j < tags@.len() ==> tagsv[j] == (#[trigger] tags@[j])@,
                    self.tags.wf(),
                    forall|e: EntryView|
                        #[trigger] self.tags@.contains(e) <==> (apre.tags@.contains(e)
                            || exists|j: int|
                            0 <= j < ti && e == (
                                crate::state::text_key(#[trigger] tagsv[j]),
                                id,
                            )),
                    *self == (Registry { tags: self.tags, ..apre }),
                decreases tags@.len() - ti,
            {
                let ghost tpre = self.tags@;
                let key = make_text_key(tags[ti].as_str());
                self.tags.insert(key, id);
                proof {
                    assert forall|e: EntryView| #[trigger] self.tags@.contains(e) <==> (
                    apre.tags@.contains(e) || exists|j: int|
                        0 <= j < ti + 1 && e == (
                            crate::state::text_key(#[trigger] tagsv[j]),
                            id,
                        )) by {
                        if self.tags@.contains(e) {
                            if e == (crate::state::text_key(tagsv[ti as int]), id) {
                                assert(0 <= ti < ti + 1 && e == (
                                    crate::state::text_key(tagsv[ti as int]),
                                    id,
                                ));
                            }
                        }
                        if exists|j: int|
                            0 <= j < ti + 1 && e == (
                                crate::state::text_key(#[trigger] tagsv[j]),
                                id,
                            ) {
                            let j = choose|j: int|
                                0 <= j < ti + 1 && e == (
                                    crate::state::text_key(#[trigger] tagsv[j]),
                                    id,
                                );
                            if j < ti {
                                assert(tpre.contains(e));
                            }
                            assert(self.tags@.contains(e));
                        }
                    }
                }
                ti = ti + 1;
            }
        }
        self.tags_size = self.tags.len() as u64;
        proof {
            lemma_sync_preserved(apre, *self);
        }
    }

    /// Records the relationships of a fresh item.
    fn record_relationships(
        &mut self,
        rels_opt: &Option<Vec<crate::models::AddressTag>>,
        id: u64,
    )
        requires
            old(self).wf(),
        ensures
            final(self).wf(),
            forall|e: EntryView|
                #[trigger] final(self).relationships@.contains(e) <==> (old(
                    self,
                ).relationships@.contains(e) || exists|j: int|
                    0 <= j < rel_views(rels_opt).len() && e == (
                        crate::state::rel_key(
                            (#[trigger] rel_views(rels_opt)[j]).0,
                            rel_views(rels_opt)[j].1,
                        ),
                        id,
                    )),
            *final(self) == (Registry {
                relationships: final(self).relationships,
                relationships_size: final(self).relationships_size,
                ..*old(self)
            }),
    {
        let ghost apre = *old(self);
        let ghost relsv = rel_views(rels_opt);
        // record the relationships
        if let Option::Some(rels) = rels_opt {
            let mut ri: usize = 0;
            while ri < rels.len()
                invariant
                    ri <= rels@.len(),
                    relsv == addr_tags_view(rels@),
                    relsv.len() == rels@.len(),
                    forall|j: int| 0 <= j < rels@.len() ==> relsv[j] == (#[trigger] rels@[j])@,
                    self.relationships.wf(),
                    forall|e: EntryView|
                        #[trigger] self.relationships@.contains(e) <==> (
                        apre.relationships@.contains(e) || exists|j: int|
                            0 <= j < ri && e == (
                                crate::state::rel_key((#[trigger] relsv[j]).0, relsv[j].1),
                                id,
                            )),
                    *self == (Registry {
                        relationships: self.relationships,
                        ..apre
                    }),
                decreases rels@.len() - ri,
            {
                let ghost rpre = self.relationships@;
                let key = crate::state::make_rel_key(
                    rels[ri].address.as_str(),
                    rels[ri].tag.as_str(),
                );
                self.relationships.insert(key, id);
                proof {
                    assert forall|e: EntryView| #[trigger] self.relationships@.contains(e) <==> (
                    apre.relationships@.contains(e) || exists|j: int|
                        0 <= j < ri + 1 && e == (
                            crate::state::rel_key((#[trigger] relsv[j]).0, relsv[j].1),
                            id,
                        )) by {
                        if self.relationships@.contains(e) {
                            if e == (
                                crate::state::rel_key(relsv[ri as int].0, relsv[ri as int].1),
                                id,
                            ) {
                                assert(0 <= ri < ri + 1 && e == (
                                    crate::state::rel_key(
                                        (relsv[ri as int]).0,
                                        relsv[ri as int].1,
                                    ),
                                    id,
                                ));
                            }
                        }
                        if exists|j: int|
                            0 <= j < ri + 1 && e == (
                                crate::state::rel_key((#[trigger] relsv[j]).0, relsv[j].1),
                                id,
                            ) {
                            let j = choose|j: int|
                                0 <= j < ri + 1 && e == (
                                    crate::state::rel_key((#[trigger] relsv[j]).0, relsv[j].1),
                                    id,
                                );
                            if j < ri {
                                assert(rpre.contains(e));
                            }
                            assert(self.relationships@.contains(e));
                        }
                    }
                }
                ri = ri + 1;
            }
        }
        self.relationships_size = self.relationships.len() as u64;
        proof {
            lemma_sync_preserved(apre, *self);
        }
    }

    /// Records the creator of a fresh item.
    fn record_creator(&mut self, sender: &String, id: u64)
        requires
            old(self).wf(),
        ensures
            final(self).wf(),
            forall|e: EntryView|
                #[trigger] final(self).ix_created_by@.contains(e) <==> (old(
                    self,
                ).ix_created_by@.contains(e) || e == (crate::state::text_key(sender@), id)),
            *final(self) == (Registry { ix_created_by: final(self).ix_created_by, ..*old(self) }),
    {
        self.ix_created_by.insert(make_text_key(sender.as_str()), id);
        proof {
            lemma_sync_preserved(*old(self), *self);
        }
    }

    /// Reserves an id and the index state for a new managed contract:
    /// writes its initial slot values, tags and relationships, records
    /// its creator, optionally stores the recipe as a preset, and hands
    /// back what the host needs to instantiate it.
    #[verifier::rlimit(100)]
    #[verifier::spinoff_prover]
    pub fn create(
        &mut self,
        sender: &String,
        acl_decision: Option<bool>,
        maybe_code_id: Option<u64>,
        instantiate_msg: &Vec<u8>,
        maybe_admin: &Option<String>,
        maybe_label: &Option<String>,
        maybe_indices: &Option<Vec<IndexSlotValue>>,
        maybe_save_as: &Option<String>,
        maybe_tags: &Option<Vec<String>>,
        maybe_relationships: &Option<Vec<crate::models::AddressTag>>,
        self_addr: &String,
        now: u64,
    ) -> (r: Result<CreateOutcome, ContractError>)
        requires
            old(self).wf(),
            old(self).next_id < u64::MAX,
            old(self).count < u64::MAX,
        ensures
            final(self).wf(),
            create_behavior(
                *old(self),
                *final(self),
                r,
                sender@,
                acl_decision,
                maybe_code_id,
                instantiate_msg@,
                match maybe_admin {
                    Option::Some(a) => Option::Some(a@),
                    Option::None => Option::None,
                },
                match maybe_label {
                    Option::Some(l) => Option::Some(l@),
                    Option::None => Option::None,
                },
                match maybe_indices {
                    Option::Some(v) => Option::Some(crate::models::slot_values_view(v@)),
                    Option::None => Option::None,
                },
                match maybe_save_as {
                    Option::Some(n) => Option::Some(n@),
                    Option::None => Option::None,
                },
                match maybe_tags {
                    Option::Some(v) => Option::Some(crate::models::strings_view(v@)),
                    Option::None => Option::None,
                },
                rel_views(maybe_relationships),
                self_addr@,
                now,
            ),
    {
        let ghost pre = *old(self);
        let ghost lv = update_views(maybe_indices);
        if !self.is_allowed(sender, acl_decision) {
            return Result::Err(ContractError::NotAuthorized);
        }
        let code_id = match maybe_code_id {
            Option::Some(c) => c,
            Option::None => self.default_code_id,
        };
        if !self.allowed_code_ids.contains(code_id) {
            return Result::Err(ContractError::CodeIdNotAllowed);
        }
        // validate the initial slot values before touching anything
        if let Option::Some(updates) = maybe_indices {
            let mut vi: usize = 0;
            while vi < updates.len()
                invariant
                    vi <= updates@.len(),
                    lv == crate::models::slot_values_view(updates@),
                    lv.len() == updates@.len(),
                    forall|j: int| 0 <= j < updates@.len() ==> lv[j] == (#[trigger] updates@[j])@,
                    self == old(self),
                    updates_error_from(pre, lv, 0) == updates_error_from(pre, lv, vi as int),
                decreases updates@.len() - vi,
            {
                let (slot, kind) = match &updates[vi] {
                    IndexSlotValue::Uint64 { slot, .. } => (*slot, ValueKind::Uint64),
                    IndexSlotValue::Uint128 { slot, .. } => (*slot, ValueKind::Uint128),
                    IndexSlotValue::Timestamp { slot, .. } => (*slot, ValueKind::Timestamp),
                    IndexSlotValue::Text { slot, .. } => (*slot, ValueKind::Text),
                    IndexSlotValue::Boolean { slot, .. } => (*slot, ValueKind::Boolean),
                };
                proof {
                    assert(lv[vi as int] == updates@[vi as int]@);
                    assert(slot_of_value(lv[vi as int]) == slot);
                    assert(kind_of_value(lv[vi as int]) == kind);
                }
                if slot >= crate::SLOT_COUNT {
                    return Result::Err(ContractError::SlotOutOfBounds { slot });
                }
                let missing = match kind {
                    ValueKind::Uint64 => self.u64_meta[slot as usize].is_none(),
                    ValueKind::Uint128 => self.u128_meta[slot as usize].is_none(),
                    ValueKind::Text => self.text_meta[slot as usize].is_none(),
                    ValueKind::Timestamp => self.ts_meta[slot as usize].is_none(),
                    ValueKind::Boolean => self.bool_meta[slot as usize].is_none(),
                };
                if missing {
                    return Result::Err(ContractError::InvalidIndexSlot);
                }
                vi = vi + 1;
            }
        }
        proof {
            assert(updates_error_from(pre, lv, 0) is None);
        }
        let has_label = match maybe_label {
            Option::Some(_) => true,
            Option::None => self.default_label.is_some(),
        };
        if !has_label {
            return Result::Err(ContractError::LabelRequired);
        }
        if let Option::Some(name) = maybe_save_as {
            if self.presets.contains_key(sender, name) {
                return Result::Err(ContractError::PresetExists);
            }
        }
        // allocate the id, seed the item, and build the label
        let contract_id = self.seed_item();
        let label = match self.build_label(maybe_label, contract_id) {
            Result::Ok(l) => l,
            Result::Err(_) => {
                proof {
                    assert(false);
                }
                String::new()
            },
        };
        let resolved_admin: String = match maybe_admin {
            Option::Some(a) => a.clone(),
            Option::None => self_addr.clone(),
        };
        proof {
            lemma_updates_same_all(pre, *self, lv, 0);
        }
        self.apply_initial_values(maybe_indices, contract_id, now, Ghost(*self));
        let ghost after_values = *self;
        proof {
            assert(after_values.id_to_values@ =~= pre.id_to_values@.insert(
                contract_id,
                apply_updates(empty_values(), lv),
            ));
            assert(metas_touched(pre, after_values, lv, contract_id, now)) by {
                assert forall|kind: ValueKind, s: int|
                    0 <= s < crate::SLOT_COUNT implies match last_update_for(lv, kind, s) {
                    Option::None => #[trigger] after_values.meta_of(kind, s) == pre.meta_of(
                        kind,
                        s,
                    ),
                    Option::Some(uu) => {
                        &&& pre.meta_of(kind, s) matches Option::Some(om)
                        &&& after_values.meta_of(kind, s) matches Option::Some(nm)
                        &&& nm@ == (crate::models::MetaView {
                            updated_at: Option::Some(now),
                            updated_key: Option::Some((prefix_of_value(uu), contract_id)),
                            size: nm@.size,
                            ..om@
                        })
                    },
                } by {}
            }
        }
        self.record_tags(maybe_tags, contract_id);
        self.record_relationships(maybe_relationships, contract_id);
        self.record_creator(sender, contract_id);
        // store the recipe as a preset when asked
        if let Option::Some(name) = maybe_save_as {
            let preset = InstantiationPreset {
                code_id: Option::Some(code_id),
                msg: instantiate_msg.clone(),
                admin: Option::Some(resolved_admin.clone()),
                indices: match maybe_indices {
                    Option::Some(v) => Option::Some(crate::maps::clone_slot_values(v)),
                    Option::None => Option::None,
                },
                label: Option::Some(label.clone()),
                tags: match maybe_tags {
                    Option::Some(v) => Option::Some(crate::maps::clone_strings(v)),
                    Option::None => Option::None,
                },
            };
            self.presets.insert_new(sender.clone(), name.clone(), preset);
            proof {
                lemma_sync_preserved(after_values, *self);
            }
        }
        proof {
            let post = *self;
            assert(post.next_id == pre.next_id + 1);
            assert(post.count == pre.count + 1);
            assert(post.id_to_values@ == pre.id_to_values@.insert(
                contract_id,
                apply_updates(empty_values(), lv),
            ));
            assert(metas_touched(pre, post, lv, contract_id, now)) by {
                assert(forall|kind: ValueKind, s: int|
                    #[trigger] post.meta_of(kind, s) == after_values.meta_of(kind, s));
            }
            assert(forall|e: EntryView|
                #[trigger] post.tags@.contains(e) <==> (pre.tags@.contains(e) || exists|j: int|
                    0 <= j < tag_views(maybe_tags).len() && e == (
                        crate::state::text_key(#[trigger] tag_views(maybe_tags)[j]),
                        contract_id,
                    )));
            assert(forall|e: EntryView|
                #[trigger] post.relationships@.contains(e) <==> (pre.relationships@.contains(e)
                    || exists|j: int|
                    0 <= j < rel_views(maybe_relationships).len() && e == (
                        crate::state::rel_key(
                            (#[trigger] rel_views(maybe_relationships)[j]).0,
                            rel_views(maybe_relationships)[j].1,
                        ),
                        contract_id,
                    )));
            assert(forall|e: EntryView|
                #[trigger] post.ix_created_by@.contains(e) <==> (pre.ix_created_by@.contains(e)
                    || e == (crate::state::text_key(sender@), contract_id)));
            assert(post.metadata@ == pre.metadata@);
            assert(post.id_to_addr@ == pre.id_to_addr@);
            assert(post.addr_to_id@ == pre.addr_to_id@);
            assert(post == (Registry {
                count: post.count,
                next_id: post.next_id,
                id_to_values: post.id_to_values,
                u64_tables: post.u64_tables,
                u128_tables: post.u128_tables,
                text_tables: post.text_tables,
                ts_tables: post.ts_tables,
                bool_tables: post.bool_tables,
                u64_meta: post.u64_meta,
                u128_meta: post.u128_meta,
                text_meta: post.text_meta,
                ts_meta: post.ts_meta,
                bool_meta: post.bool_meta,
                tags: post.tags,
                tags_size: post.tags_size,
                relationships: post.relationships,
                relationships_size: post.relationships_size,
                ix_created_by: post.ix_created_by,
                presets: post.presets,
                ..pre
            }));
        }
        let out = CreateOutcome {
            contract_id,
            code_id,
            msg: instantiate_msg.clone(),
            label,
            admin: Option::Some(resolved_admin),
        };
        proof {
            assert(create_success(
                pre,
                *self,
                out,
                sender@,
                instantiate_msg@,
                match maybe_indices {
                    Option::Some(v) => Option::Some(crate::models::slot_values_view(v@)),
                    Option::None => Option::None,
                },
                match maybe_save_as {
                    Option::Some(n) => Option::Some(n@),
                    Option::None => Option::None,
                },
                match maybe_tags {
                    Option::Some(v) => Option::Some(crate::models::strings_view(v@)),
                    Option::None => Option::None,
                },
                rel_views(maybe_relationships),
                now,
                code_id,
                contract_id,
                lv,
                tag_views(maybe_tags),
                resolved_admin@,
                label@,
            ));
            assert(create_behavior(
                pre,
                *self,
                Result::<CreateOutcome, ContractError>::Ok(out),
                sender@,
                acl_decision,
                maybe_code_id,
                instantiate_msg@,
                match maybe_admin {
                    Option::Some(a) => Option::Some(a@),
                    Option::None => Option::None,
                },
                match maybe_label {
                    Option::Some(l) => Option::Some(l@),
                    Option::None => Option::None,
                },
                match maybe_indices {
                    Option::Some(v) => Option::Some(crate::models::slot_values_view(v@)),
                    Option::None => Option::None,
                },
                match maybe_save_as {
                    Option::Some(n) => Option::Some(n@),
                    Option::None => Option::None,
                },
                match maybe_tags {
                    Option::Some(v) => Option::Some(crate::models::strings_view(v@)),
                    Option::None => Option::None,
                },
                rel_views(maybe_relationships),
                self_addr@,
                now,
            ));
        }
        Result::Ok(out)
    }
}

/// The models of an optional list of tags; an absent list is empty.
pub open spec fn tag_views(l: &Option<Vec<String>>) -> Seq<Seq<char>> {
    match l {
        Option::None => Seq::empty(),
        Option::Some(v) => crate::models::strings_view(v@),
    }
}

/// The models of an optional list of relationships; an absent list is
/// empty.
pub open spec fn rel_views(l: &Option<Vec<crate::models::AddressTag>>) -> Seq<
    (Seq<char>, Seq<char>),
> {
    match l {
        Option::None => Seq::empty(),
        Option::Some(v) => addr_tags_view(v@),
    }
}

/// Validation does not look at values records or counters, so it reads
/// the same in two registries with the same metadata vectors.
proof fn lemma_updates_same_all(pre: Registry, post: Registry, l: Seq<SlotValueView>, i: int)
    requires
        post.u64_meta@ == pre.u64_meta@,
        post.u128_meta@ == pre.u128_meta@,
        post.text_meta@ == pre.text_meta@,
        post.ts_meta@ == pre.ts_meta@,
        post.bool_meta@ == pre.bool_meta@,
        0 <= i <= l.len(),
        updates_error_from(pre, l, 0) is None,
    ensures
        updates_error_from(post, l, i) is None,
    decreases l.len() - i,
{
    if i < l.len() {
        lemma_updates_same_all(pre, post, l, i + 1);
        lemma_updates_ok(pre, l, i);
    }
}


impl Registry {
    /// Creates a managed contract, filling absent arguments from one
    /// of the caller's stored presets, or from the empty payload when
    /// no preset is named.
    pub fn create_from_preset(
        &mut self,
        sender: &String,
        acl_decision: Option<bool>,
        maybe_code_id: Option<u64>,
        maybe_instantiate_msg: &Option<Vec<u8>>,
        maybe_admin: &Option<String>,
        maybe_label: &Option<String>,
        maybe_indices: &Option<Vec<IndexSlotValue>>,
        maybe_preset_name: &Option<String>,
        maybe_save_as: &Option<String>,
        maybe_tags: &Option<Vec<String>>,
        maybe_relationships: &Option<Vec<crate::models::AddressTag>>,
        self_addr: &String,
        now: u64,
    ) -> (r: Result<CreateOutcome, ContractError>)
        requires
            old(self).wf(),
            old(self).next_id < u64::MAX,
            old(self).count < u64::MAX,
        ensures
            final(self).wf(),
            (maybe_preset_name matches Option::Some(n) && !old(self).presets@.contains_key(
                (sender@, n@),
            )) ==> r == Result::<CreateOutcome, ContractError>::Err(ContractError::NotFound)
                && *final(self) == *old(self),
            maybe_preset_name is None ==> create_behavior(
                *old(self),
                *final(self),
                r,
                sender@,
                acl_decision,
                maybe_code_id,
                match maybe_instantiate_msg {
                    Option::Some(m) => m@,
                    Option::None => seq![123u8, 125u8],
                },
                match maybe_admin {
                    Option::Some(a) => Option::Some(a@),
                    Option::None => Option::None,
                },
                match maybe_label {
                    Option::Some(l) => Option::Some(l@),
                    Option::None => Option::None,
                },
                match maybe_indices {
                    Option::Some(v) => Option::Some(crate::models::slot_values_view(v@)),
                    Option::None => Option::None,
                },
                match maybe_save_as {
                    Option::Some(n) => Option::Some(n@),
                    Option::None => Option::None,
                },
                match maybe_tags {
                    Option::Some(v) => Option::Some(crate::models::strings_view(v@)),
                    Option::None => Option::None,
                },
                rel_views(maybe_relationships),
                self_addr@,
                now,
            ),
            (maybe_preset_name matches Option::Some(n) && old(self).presets@.contains_key(
                (sender@, n@),
            )) ==> ({
                let p = old(self).presets@[(sender@, maybe_preset_name->0@)];
                create_behavior(
                    *old(self),
                    *final(self),
                    r,
                    sender@,
                    acl_decision,
                    match maybe_code_id {
                        Option::Some(c) => Option::Some(c),
                        Option::None => p.code_id,
                    },
                    match maybe_instantiate_msg {
                        Option::Some(m) => m@,
                        Option::None => p.msg,
                    },
                    match maybe_admin {
                        Option::Some(a) => Option::Some(a@),
                        Option::None => p.admin,
                    },
                    match maybe_label {
                        Option::Some(l) => Option::Some(l@),
                        Option::None => p.label,
                    },
                    match maybe_indices {
                        Option::Some(v) => Option::Some(crate::models::slot_values_view(v@)),
                        Option::None => p.indices,
                    },
                    match maybe_save_as {
                        Option::Some(n2) => Option::Some(n2@),
                        Option::None => Option::None,
                    },
                    match maybe_tags {
                        Option::Some(v) => Option::Some(crate::models::strings_view(v@)),
                        Option::None => Option::None,
                    },
                    rel_views(maybe_relationships),
                    self_addr@,
                    now,
                )
            }),
    {
        if let Option::Some(name) = maybe_preset_name {
            let preset = match self.presets.get(sender, name) {
                Option::Some(p) => p.clone(),
                Option::None => {
                    return Result::Err(ContractError::NotFound);
                },
            };
            let merged_code_id = match maybe_code_id {
                Option::Some(c) => Option::Some(c),
                Option::None => preset.code_id,
            };
            let merged_msg: Vec<u8> = match maybe_instantiate_msg {
                Option::Some(m) => m.clone(),
                Option::None => preset.msg,
            };
            let merged_admin: Option<String> = match maybe_admin {
                Option::Some(a) => Option::Some(a.clone()),
                Option::None => preset.admin,
            };
            let merged_label: Option<String> = match maybe_label {
                Option::Some(l) => Option::Some(l.clone()),
                Option::None => preset.label,
            };
            let merged_indices: Option<Vec<IndexSlotValue>> = match maybe_indices {
                Option::Some(v) => Option::Some(crate::maps::clone_slot_values(v)),
                Option::None => preset.indices,
            };
            self.create(
                sender,
                acl_decision,
                merged_code_id,
                &merged_msg,
                &merged_admin,
                &merged_label,
                &merged_indices,
                maybe_save_as,
                maybe_tags,
                maybe_relationships,
                self_addr,
                now,
            )
        } else {
            let msg: Vec<u8> = match maybe_instantiate_msg {
                Option::Some(m) => m.clone(),
                Option::None => {
                    // no payload given and no preset named: instantiate
                    // with the empty object
                    let mut d: Vec<u8> = Vec::new();
                    d.push(123);
                    d.push(125);
                    proof {
                        assert(d@ =~= seq![123u8, 125u8]);
                    }
                    d
                },
            };
            self.create(
                sender,
                acl_decision,
                maybe_code_id,
                &msg,
                maybe_admin,
                maybe_label,
                maybe_indices,
                maybe_save_as,
                maybe_tags,
                maybe_relationships,
                self_addr,
                now,
            )
        }
    }
}

} // verus!
