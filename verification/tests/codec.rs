use cw_repo::client::UpdateBuilder;
use cw_repo::keys::{bytes_lt, parse_bool_cursor, parse_dec, render_key, u128_to_dec, IndexKey};
use cw_repo::models::IndexSlotValue;

#[test]
fn decimal_rendering_round_trips() {
    for v in [0u128, 1, 9, 10, 255, 1_000_000, u128::MAX] {
        let bytes = u128_to_dec(v);
        assert_eq!(parse_dec(&bytes, u128::MAX), Some(v));
    }
    assert_eq!(u128_to_dec(0), b"0".to_vec());
    assert_eq!(u128_to_dec(407), b"407".to_vec());
}

#[test]
fn decimal_parsing_rejects_bad_input() {
    assert_eq!(parse_dec(&b"".to_vec(), u128::MAX), None);
    assert_eq!(parse_dec(&b"12a".to_vec(), u128::MAX), None);
    assert_eq!(parse_dec(&b"256".to_vec(), 255), None);
    assert_eq!(parse_dec(&b"0255".to_vec(), 255), Some(255));
}

#[test]
fn boolean_cursors_read_zero_and_false() {
    assert_eq!(parse_bool_cursor(&b"0".to_vec()), 0);
    assert_eq!(parse_bool_cursor(&b"false".to_vec()), 0);
    assert_eq!(parse_bool_cursor(&b"FaLsE".to_vec()), 0);
    assert_eq!(parse_bool_cursor(&b"1".to_vec()), 1);
    assert_eq!(parse_bool_cursor(&b"true".to_vec()), 1);
    assert_eq!(parse_bool_cursor(&b"2".to_vec()), 1);
}

#[test]
fn byte_order_is_lexicographic() {
    assert!(bytes_lt(&b"app".to_vec(), &b"apple".to_vec()));
    assert!(bytes_lt(&b"apple".to_vec(), &b"banana".to_vec()));
    assert!(!bytes_lt(&b"banana".to_vec(), &b"banana".to_vec()));
    assert!(!bytes_lt(&b"banana".to_vec(), &b"apple".to_vec()));
}

#[test]
fn cursor_values_render_per_kind() {
    assert_eq!(render_key(&IndexKey::Num(20)), b"20".to_vec());
    assert_eq!(render_key(&IndexKey::Text(b"apple".to_vec())), b"apple".to_vec());
}

#[test]
fn builder_encodes_tags_and_strings_as_base64() {
    let b = UpdateBuilder::new(&"repo".to_string());
    let b = b.add_tag("x");
    assert_eq!(b.tags_to_add, vec!["eA==".to_string()]);
    // re-adding the same tag keeps the list free of duplicates
    let b = b.add_tag("x");
    assert_eq!(b.tags_to_add.len(), 1);
    let b = b.set_string(0, "hi");
    match &b.values[0] {
        IndexSlotValue::Text { slot, value } => {
            assert_eq!(*slot, 0);
            assert_eq!(value, "aGk=");
        },
        _ => panic!("expected a text slot value"),
    }
    let b = b.change_tag("x", "y");
    assert_eq!(b.tags_to_remove, vec!["eA==".to_string()]);
    assert!(b.tags_to_add.contains(&"eQ==".to_string()));
    let b = b.add_relationship(&"wallet1".to_string(), "owner");
    assert_eq!(b.rels_to_add[0].address, "wallet1");
    assert_eq!(b.rels_to_add[0].tag, "b3duZXI=");
}

#[test]
fn builder_bulk_methods_encode_and_deduplicate() {
    let b = UpdateBuilder::new(&"repo".to_string());
    let b = b.add_tags(vec!["x", "y", "x"]);
    assert_eq!(b.tags_to_add, vec!["eA==".to_string(), "eQ==".to_string()]);
    let b = b.remove_tags(vec!["x", "z", "x"]);
    assert_eq!(b.tags_to_remove, vec!["eA==".to_string(), "eg==".to_string()]);
    let wallet = "wallet1".to_string();
    let b = b.add_relationships(&wallet, vec!["owner", "admin", "owner"]);
    assert_eq!(b.rels_to_add.len(), 2);
    assert_eq!(b.rels_to_add[0].address, "wallet1");
    assert_eq!(b.rels_to_add[0].tag, "b3duZXI=");
    assert_eq!(b.rels_to_add[1].tag, "YWRtaW4=");
    let b = b.remove_relationships(&wallet, vec!["owner"]);
    assert_eq!(b.rels_to_remove.len(), 1);
    assert_eq!(b.rels_to_remove[0].address, "wallet1");
    assert_eq!(b.rels_to_remove[0].tag, "b3duZXI=");
}
