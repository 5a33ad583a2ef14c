//! Compound-key values and the cursor value codec.
//!
//! Every index table sorts entries by a `(key, item id)` compound key.
//! A key is either numeric (unsigned integers, timestamps as their
//! nanosecond count, booleans as 0/1) or textual (raw UTF-8 bytes,
//! ordered byte-lexicographically).  Cursors carry the key rendered as
//! bytes: decimal digits for numeric keys, the text itself for textual
//! keys.

use vstd::prelude::*;

verus! {

/// A value half of a compound index key.
#[derive(Debug)]
pub enum IndexKey {
    /// Numeric keys: unsigned integers, timestamps, booleans as 0/1.
    Num(u128),
    /// Textual keys: raw UTF-8 bytes, ordered byte-lexicographically.
    Text(Vec<u8>),
}

/// The mathematical model of an index key.
pub enum KeyView {
    Num(u128),
    Text(Seq<u8>),
}

impl View for IndexKey {
    type V = KeyView;

    open spec fn view(&self) -> KeyView {
        match self {
            IndexKey::Num(v) => KeyView::Num(*v),
            IndexKey::Text(b) => KeyView::Text(b@),
        }
    }
}

impl Clone for IndexKey {
    fn clone(&self) -> (r: Self)
        ensures
            r@ == self@,
    {
        match self {
            IndexKey::Num(v) => IndexKey::Num(*v),
            IndexKey::Text(b) => IndexKey::Text(b.clone()),
        }
    }
}

/// A compound key as the tables order it: a key and the item id.
pub type EntryView = (KeyView, u64);

/// The model of an executable compound key.
pub open spec fn entry_view(e: (IndexKey, u64)) -> EntryView {
    (e.0@, e.1)
}

/// Byte-lexicographic strict order on byte sequences.
pub open spec fn lex_lt(a: Seq<u8>, b: Seq<u8>) -> bool
    decreases a.len(),
{
    if b.len() == 0 {
        false
    } else if a.len() == 0 {
        true
    } else if a[0] < b[0] {
        true
    } else if a[0] > b[0] {
        false
    } else {
        lex_lt(a.drop_first(), b.drop_first())
    }
}

/// Strict order on keys: numeric before textual, numerics by value,
/// texts byte-lexicographically.
pub open spec fn key_lt(a: KeyView, b: KeyView) -> bool {
    match (a, b) {
        (KeyView::Num(x), KeyView::Num(y)) => x < y,
        (KeyView::Num(_), KeyView::Text(_)) => true,
        (KeyView::Text(_), KeyView::Num(_)) => false,
        (KeyView::Text(x), KeyView::Text(y)) => lex_lt(x, y),
    }
}

/// Strict order on compound keys: by key, then by item id.
pub open spec fn entry_lt(a: EntryView, b: EntryView) -> bool {
    key_lt(a.0, b.0) || (a.0 == b.0 && a.1 < b.1)
}

pub proof fn lemma_lex_lt_trichotomy(a: Seq<u8>, b: Seq<u8>)
    ensures
        lex_lt(a, b) || lex_lt(b, a) || a == b,
        lex_lt(a, b) ==> !lex_lt(b, a) && a != b,
        lex_lt(b, a) ==> !lex_lt(a, b) && a != b,
    decreases a.len(),
{
    if a.len() != 0 && b.len() != 0 && a[0] == b[0] {
        lemma_lex_lt_trichotomy(a.drop_first(), b.drop_first());
        if a.drop_first() == b.drop_first() {
            assert(a =~= b) by {
                assert(forall|i: int|
                    1 <= i < a.len() ==> #[trigger] a[i] == a.drop_first()[i - 1]);
                assert(forall|i: int|
                    1 <= i < b.len() ==> #[trigger] b[i] == b.drop_first()[i - 1]);
            }
        }
        if a == b {
            assert(a.drop_first() =~= b.drop_first());
        }
    } else if a.len() == 0 && b.len() == 0 {
        assert(a =~= b);
    }
}

pub proof fn lemma_lex_lt_transitive(a: Seq<u8>, b: Seq<u8>, c: Seq<u8>)
    requires
        lex_lt(a, b),
        lex_lt(b, c),
    ensures
        lex_lt(a, c),
    decreases a.len(),
{
    if a.len() != 0 && b.len() != 0 && c.len() != 0 && a[0] == b[0] && b[0] == c[0] {
        lemma_lex_lt_transitive(a.drop_first(), b.drop_first(), c.drop_first());
    }
}

pub proof fn lemma_key_lt_trichotomy(a: KeyView, b: KeyView)
    ensures
        key_lt(a, b) || key_lt(b, a) || a == b,
        key_lt(a, b) ==> !key_lt(b, a) && a != b,
        key_lt(b, a) ==> !key_lt(a, b) && a != b,
{
    match (a, b) {
        (KeyView::Text(x), KeyView::Text(y)) => {
            lemma_lex_lt_trichotomy(x, y);
        },
        _ => {},
    }
}

pub proof fn lemma_key_lt_transitive(a: KeyView, b: KeyView, c: KeyView)
    requires
        key_lt(a, b),
        key_lt(b, c),
    ensures
        key_lt(a, c),
{
    match (a, b, c) {
        (KeyView::Text(x), KeyView::Text(y), KeyView::Text(z)) => {
            lemma_lex_lt_transitive(x, y, z);
        },
        _ => {},
    }
}

pub proof fn lemma_entry_lt_trichotomy(a: EntryView, b: EntryView)
    ensures
        entry_lt(a, b) || entry_lt(b, a) || a == b,
        entry_lt(a, b) ==> !entry_lt(b, a) && a != b,
        entry_lt(b, a) ==> !entry_lt(a, b) && a != b,
{
    lemma_key_lt_trichotomy(a.0, b.0);
}

pub proof fn lemma_entry_lt_transitive(a: EntryView, b: EntryView, c: EntryView)
    requires
        entry_lt(a, b),
        entry_lt(b, c),
    ensures
        entry_lt(a, c),
{
    if key_lt(a.0, b.0) && key_lt(b.0, c.0) {
        lemma_key_lt_transitive(a.0, b.0, c.0);
    }
}

/// Compares two byte vectors in byte-lexicographic order.
pub fn bytes_lt(a: &Vec<u8>, b: &Vec<u8>) -> (r: bool)
    ensures
        r == lex_lt(a@, b@),
{
    let mut i: usize = 0;
    let n: usize = if a.len() < b.len() {
        a.len()
    } else {
        b.len()
    };
    while i < n
        invariant
            i <= n,
            n <= a@.len(),
            n <= b@.len(),
            forall|j: int| 0 <= j < i ==> a@[j] == b@[j],
        decreases n - i,
    {
        if a[i] < b[i] {
            proof {
                lemma_lex_lt_common_prefix(a@, b@, i as int);
            }
            return true;
        }
        if a[i] > b[i] {
            proof {
                lemma_lex_lt_common_prefix(a@, b@, i as int);
            }
            return false;
        }
        i = i + 1;
    }
    proof {
        lemma_lex_lt_common_prefix(a@, b@, n as int);
    }
    a.len() < b.len()
}

/// With the first `i` bytes equal, the order of two sequences is decided
/// at index `i`: by the bytes there if both have one, else by length.
proof fn lemma_lex_lt_common_prefix(a: Seq<u8>, b: Seq<u8>, i: int)
    requires
        0 <= i <= a.len(),
        0 <= i <= b.len(),
        forall|j: int| 0 <= j < i ==> a[j] == b[j],
    ensures
        lex_lt(a, b) == if i < a.len() && i < b.len() {
            (a[i] < b[i] || (a[i] == b[i] && lex_lt(a.skip(i + 1), b.skip(i + 1))))
        } else {
            i == a.len() && i < b.len()
        },
    decreases i,
{
    if i == 0 {
        if 0 < a.len() && 0 < b.len() && a[0] == b[0] {
            assert(a.skip(1) =~= a.drop_first());
            assert(b.skip(1) =~= b.drop_first());
        }
    } else {
        assert(a.drop_first().skip(i - 1) =~= a.skip(i)) by {
            assert(forall|j: int|
                0 <= j < a.len() - i ==> #[trigger] a.drop_first().skip(i - 1)[j] == a[i + j]);
        }
        assert(b.drop_first().skip(i - 1) =~= b.skip(i)) by {
            assert(forall|j: int|
                0 <= j < b.len() - i ==> #[trigger] b.drop_first().skip(i - 1)[j] == b[i + j]);
        }
        if i < a.len() {
            assert(a.drop_first().skip(i) =~= a.skip(i + 1)) by {
                assert(forall|j: int|
                    0 <= j < a.len() - i - 1 ==> #[trigger] a.drop_first().skip(i)[j] == a[i + 1
                        + j]);
            }
        }
        if i < b.len() {
            assert(b.drop_first().skip(i) =~= b.skip(i + 1)) by {
                assert(forall|j: int|
                    0 <= j < b.len() - i - 1 ==> #[trigger] b.drop_first().skip(i)[j] == b[i + 1
                        + j]);
            }
        }
        assert(forall|j: int| 0 <= j < i - 1 ==> a.drop_first()[j] == b.drop_first()[j]);
        lemma_lex_lt_common_prefix(a.drop_first(), b.drop_first(), i - 1);
    }
}

/// Compares two keys in the total index order.
pub fn key_less(a: &IndexKey, b: &IndexKey) -> (r: bool)
    ensures
        r == key_lt(a@, b@),
{
    match (a, b) {
        (IndexKey::Num(x), IndexKey::Num(y)) => *x < *y,
        (IndexKey::Num(_), IndexKey::Text(_)) => true,
        (IndexKey::Text(_), IndexKey::Num(_)) => false,
        (IndexKey::Text(x), IndexKey::Text(y)) => bytes_lt(x, y),
    }
}

/// Decides equality of two keys.
pub fn key_eq(a: &IndexKey, b: &IndexKey) -> (r: bool)
    ensures
        r == (a@ == b@),
{
    match (a, b) {
        (IndexKey::Num(x), IndexKey::Num(y)) => *x == *y,
        (IndexKey::Text(x), IndexKey::Text(y)) => {
            let r = !bytes_lt(x, y) && !bytes_lt(y, x);
            proof {
                lemma_lex_lt_trichotomy(x@, y@);
            }
            r
        },
        _ => false,
    }
}

/// Compares two compound keys in the traversal order.
pub fn entry_less(a: &(IndexKey, u64), b: &(IndexKey, u64)) -> (r: bool)
    ensures
        r == entry_lt(entry_view(*a), entry_view(*b)),
{
    if key_less(&a.0, &b.0) {
        true
    } else if key_eq(&a.0, &b.0) {
        a.1 < b.1
    } else {
        false
    }
}

// ---------------------------------------------------------------------
// Cursor value codec: numeric keys travel as decimal digit bytes.
// ---------------------------------------------------------------------

/// The decimal digit bytes of `v`, most significant first.
pub open spec fn dec_bytes(v: u128) -> Seq<u8>
    decreases v,
{
    if v < 10 {
        seq![(48 + v) as u8]
    } else {
        dec_bytes(v / 10).push((48 + v % 10) as u8)
    }
}

/// Whether every byte is an ASCII decimal digit.
pub open spec fn all_digits(s: Seq<u8>) -> bool {
    forall|i: int| 0 <= i < s.len() ==> 48 <= #[trigger] s[i] <= 57
}

/// The integer a digit string denotes, most significant digit first.
pub open spec fn dec_val(s: Seq<u8>) -> int
    decreases s.len(),
{
    if s.len() == 0 {
        0
    } else {
        dec_val(s.drop_last()) * 10 + s.last() - 48
    }
}

pub proof fn lemma_dec_val_nonneg(s: Seq<u8>)
    requires
        all_digits(s),
    ensures
        dec_val(s) >= 0,
    decreases s.len(),
{
    if s.len() > 0 {
        assert(all_digits(s.drop_last()));
        lemma_dec_val_nonneg(s.drop_last());
    }
}

/// A digit string denotes at least as much as any of its prefixes.
pub proof fn lemma_dec_val_prefix_le(s: Seq<u8>, i: int)
    requires
        all_digits(s),
        0 <= i <= s.len(),
    ensures
        dec_val(s.take(i)) <= dec_val(s),
    decreases s.len() - i,
{
    if i < s.len() {
        lemma_dec_val_prefix_le(s, i + 1);
        assert(s.take(i + 1).drop_last() =~= s.take(i));
        assert(all_digits(s.take(i)));
        lemma_dec_val_nonneg(s.take(i));
        assert(dec_val(s.take(i + 1)) == dec_val(s.take(i)) * 10 + s[i] - 48);
    } else {
        assert(s.take(i) =~= s);
    }
}

/// Rendering and reading decimal digits are mutually inverse.
pub proof fn lemma_dec_bytes_val(v: u128)
    ensures
        all_digits(dec_bytes(v)),
        dec_bytes(v).len() >= 1,
        dec_val(dec_bytes(v)) == v,
    decreases v,
{
    if v < 10 {
        assert(dec_bytes(v).drop_last() =~= Seq::<u8>::empty());
        assert(dec_val(Seq::<u8>::empty()) == 0);
    } else {
        lemma_dec_bytes_val(v / 10);
        assert(dec_bytes(v).drop_last() =~= dec_bytes(v / 10));
        assert(dec_val(dec_bytes(v)) == dec_val(dec_bytes(v / 10)) * 10 + (48 + v % 10) - 48);
    }
}

/// Renders `v` as decimal digit bytes, most significant first.
pub fn u128_to_dec(v: u128) -> (r: Vec<u8>)
    ensures
        r@ == dec_bytes(v),
    decreases v,
{
    if v < 10 {
        let mut r: Vec<u8> = Vec::new();
        r.push(48 + v as u8);
        proof {
            assert(r@ =~= dec_bytes(v));
        }
        r
    } else {
        let mut r = u128_to_dec(v / 10);
        r.push(48 + (v % 10) as u8);
        r
    }
}

/// Reads a decimal digit string, refusing empty or non-digit input and
/// values above `max`.
pub fn parse_dec(bytes: &Vec<u8>, max: u128) -> (r: Option<u128>)
    ensures
        match r {
            Some(v) => bytes@.len() > 0 && all_digits(bytes@) && dec_val(bytes@) == v && v <= max,
            None => bytes@.len() == 0 || !all_digits(bytes@) || dec_val(bytes@) > max,
        },
{
    if bytes.len() == 0 {
        return None;
    }
    let mut acc: u128 = 0;
    let mut i: usize = 0;
    while i < bytes.len()
        invariant
            i <= bytes@.len(),
            all_digits(bytes@.take(i as int)),
            acc == dec_val(bytes@.take(i as int)),
            acc <= max,
        decreases bytes@.len() - i,
    {
        let b = bytes[i];
        if b < 48 || b > 57 {
            assert(bytes@[i as int] == b);
            return None;
        }
        let d: u128 = (b - 48) as u128;
        let overflow = acc > max / 10 || (acc == max / 10 && d > max % 10);
        proof {
            assert(bytes@.take(i + 1).drop_last() =~= bytes@.take(i as int));
            assert(all_digits(bytes@.take(i + 1)));
            assert(dec_val(bytes@.take(i + 1)) == acc * 10 + d);
            if overflow {
                assert(acc * 10 + d > max) by (nonlinear_arith)
                    requires
                        acc > max / 10 || (acc == max / 10 && d > max % 10),
                        0 <= max % 10 < 10,
                        max % 10 == max - (max / 10) * 10,
                        d >= 0,
                ;
            } else {
                assert(acc * 10 + d <= max) by (nonlinear_arith)
                    requires
                        acc <= max / 10,
                        !(acc > max / 10 || (acc == max / 10 && d > max % 10)),
                        0 <= max % 10 < 10,
                        max % 10 == max - (max / 10) * 10,
                        d <= 9,
                ;
            }
        }
        if overflow {
            proof {
                if all_digits(bytes@) {
                    lemma_dec_val_prefix_le(bytes@, i + 1);
                }
            }
            return None;
        }
        acc = acc * 10 + d;
        i = i + 1;
    }
    proof {
        assert(bytes@.take(bytes@.len() as int) =~= bytes@);
    }
    Some(acc)
}

/// Renders a key as cursor bytes: decimal digits for numeric keys, the
/// text itself for textual keys.
pub open spec fn key_cursor_bytes(k: KeyView) -> Seq<u8> {
    match k {
        KeyView::Num(v) => dec_bytes(v),
        KeyView::Text(b) => b,
    }
}

/// Renders a key as cursor bytes.
pub fn render_key(k: &IndexKey) -> (r: Vec<u8>)
    ensures
        r@ == key_cursor_bytes(k@),
{
    match k {
        IndexKey::Num(v) => u128_to_dec(*v),
        IndexKey::Text(b) => b.clone(),
    }
}

/// The ASCII-lowercased copy of a byte sequence.
pub open spec fn ascii_lower(s: Seq<u8>) -> Seq<u8> {
    s.map(|_i: int, b: u8| if 65 <= b <= 90 { (b + 32) as u8 } else { b })
}

/// The bytes of the word "false".
pub open spec fn false_word() -> Seq<u8> {
    seq![102u8, 97u8, 108u8, 115u8, 101u8]
}

/// Whether cursor bytes denote the boolean key 0: the single digit `0`,
/// or the word "false" in any ASCII case.
pub open spec fn is_false_cursor(s: Seq<u8>) -> bool {
    s == seq![48u8] || ascii_lower(s) == false_word()
}

/// Reads a boolean cursor value: 0 for `0`/"false" (ASCII
/// case-insensitive), 1 for anything else.
pub fn parse_bool_cursor(bytes: &Vec<u8>) -> (r: u128)
    ensures
        r == if is_false_cursor(bytes@) {
            0u128
        } else {
            1u128
        },
{
    if bytes.len() == 1 && bytes[0] == 48 {
        proof {
            assert(bytes@ =~= seq![48u8]);
        }
        return 0;
    }
    proof {
        if bytes@.len() != 1 {
            assert(bytes@ != seq![48u8]);
        } else {
            assert(bytes@[0] != 48);
            assert(bytes@ != seq![48u8]);
        }
    }
    if bytes.len() == 5 {
        let mut lower: Vec<u8> = Vec::new();
        let mut i: usize = 0;
        while i < bytes.len()
            invariant
                i <= bytes@.len(),
                lower@ =~= ascii_lower(bytes@.take(i as int)),
            decreases bytes@.len() - i,
        {
            let b = bytes[i];
            let l: u8 = if b >= 65 && b <= 90 {
                (b + 32) as u8
            } else {
                b
            };
            lower.push(l);
            proof {
                assert(ascii_lower(bytes@.take(i + 1)) =~= ascii_lower(bytes@.take(i as int)).push(
                    l,
                ));
            }
            i = i + 1;
        }
        proof {
            assert(bytes@.take(bytes@.len() as int) =~= bytes@);
        }
        let is_false = lower[0] == 102 && lower[1] == 97 && lower[2] == 108 && lower[3] == 115
            && lower[4] == 101;
        proof {
            if is_false {
                assert(ascii_lower(bytes@) =~= false_word());
            } else {
                assert(ascii_lower(bytes@) != false_word());
            }
        }
        if is_false {
            return 0;
        }
        return 1;
    }
    proof {
        assert(ascii_lower(bytes@).len() == bytes@.len());
        assert(ascii_lower(bytes@) != false_word());
    }
    1
}

} // verus!
