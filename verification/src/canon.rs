//! Canonical encoding: the deterministic CBOR subset that request values are
//! hashed through.
//!
//! A memo table is only as trustworthy as the equality it uses. Two requests
//! that mean the same thing must encode the same, and two that mean different
//! things must never encode the same. [`law_encoding_is_injective`] and
//! [`law_same_values_encode_the_same`] state both halves.
//!
//! The subset: definite lengths only, integers in the shortest of the five
//! widths, map entries sorted bytewise by their encoded key with duplicate
//! keys refused, no floats, and strings as their UTF-8 bytes.
use crate::text::{append_int, append_str, hex_of, hex_text, int_text, string_of};
use vstd::prelude::*;
use vstd::utf8::encode_utf8;

verus! {

/// Participates in hashing through the domain, not through the encoded bytes.
pub const VERSION: &'static str = "canon-v1";

/// A value in the canonical subset. Deliberately smaller than CBOR: no
/// floats, no tags, no simple values beyond `null` and the booleans.
#[derive(Debug, PartialEq, Eq)]
pub enum CanonValue {
    Null,
    Bool(bool),
    /// Covers the whole CBOR integer range, which is wider than `i64` in both
    /// directions: unsigned reaches `2^64 - 1` and negative reaches `-2^64`.
    Int(i128),
    Bytes(Vec<u8>),
    Str(String),
    Array(Vec<CanonValue>),
    /// Held as pairs because the canonical order is over *encoded* keys. The
    /// encoder sorts, so construction order is never observable.
    Dict(Vec<(CanonValue, CanonValue)>),
}

/// Why a value could not be canonically encoded.
#[derive(Clone, Debug, PartialEq, Eq)]
pub enum CanonError {
    /// Outside the CBOR integer range: `-2^64 ..= 2^64 - 1`.
    IntOutOfRange { value: i128 },
    /// Two entries in one map encoded to the same key bytes.
    DuplicateKey { key_hex: String },
    /// The value nests deeper than [`MAX_DEPTH`].
    TooDeep { limit: u32 },
}

/// The model of [`CanonError`].
pub enum Refusal {
    IntOutOfRange { value: int },
    DuplicateKey { key_hex: Seq<char> },
    TooDeep { limit: int },
}

impl View for CanonError {
    type V = Refusal;

    open spec fn view(&self) -> Refusal {
        match self {
            CanonError::IntOutOfRange { value } => Refusal::IntOutOfRange { value: *value as int },
            CanonError::DuplicateKey { key_hex } => Refusal::DuplicateKey { key_hex: key_hex@ },
            CanonError::TooDeep { limit } => Refusal::TooDeep { limit: *limit as int },
        }
    }
}

/// Deepest nesting the encoder will follow.
pub const MAX_DEPTH: u32 = 128;

/// Largest CBOR unsigned integer, `2^64 - 1`.
pub const MAX_UINT: i128 = 0xffff_ffff_ffff_ffff;

/// Smallest CBOR negative integer, `-2^64`.
pub const MIN_NEGINT: i128 = -0x1_0000_0000_0000_0000;

pub const MAJOR_UINT: u8 = 0;
pub const MAJOR_NEGINT: u8 = 1;
pub const MAJOR_BYTES: u8 = 2;
pub const MAJOR_TEXT: u8 = 3;
pub const MAJOR_ARRAY: u8 = 4;
pub const MAJOR_MAP: u8 = 5;

// -- the model ---------------------------------------------------------------

/// The `k` low bytes of `n`, most significant first.
pub open spec fn big_endian(n: nat, k: nat) -> Seq<u8>
    decreases k,
{
    if k == 0 {
        Seq::empty()
    } else {
        big_endian(n / 256, (k - 1) as nat).push((n % 256) as u8)
    }
}

/// A head: the major type in the top three bits, then the shortest argument
/// encoding that holds `n`.
pub open spec fn head(major: u8, n: nat) -> Seq<u8> {
    let top = major * 32;
    if n < 24 {
        seq![(top + n) as u8]
    } else if n < 0x100 {
        seq![(top + 24) as u8] + big_endian(n, 1)
    } else if n < 0x1_0000 {
        seq![(top + 25) as u8] + big_endian(n, 2)
    } else if n < 0x1_0000_0000 {
        seq![(top + 26) as u8] + big_endian(n, 4)
    } else {
        seq![(top + 27) as u8] + big_endian(n, 8)
    }
}

/// Bytewise order from position `i` on; a proper prefix comes first.
pub open spec fn before_from(a: Seq<u8>, b: Seq<u8>, i: int) -> bool
    decreases a.len() - i,
{
    if i >= b.len() {
        false
    } else if i >= a.len() {
        true
    } else {
        a[i] < b[i] || (a[i] == b[i] && before_from(a, b, i + 1))
    }
}

/// Bytewise lexicographic order.
pub open spec fn before(a: Seq<u8>, b: Seq<u8>) -> bool {
    before_from(a, b, 0)
}

/// One map entry, encoded: its key, its value, and what is wrong with the
/// value if anything is.
pub struct Row {
    pub key: Seq<u8>,
    pub val: Seq<u8>,
    pub bad: Option<Refusal>,
}

/// Where a key goes in rows already in order: after every key not above it.
pub open spec fn spot_from(rows: Seq<Row>, key: Seq<u8>, i: int) -> int
    decreases rows.len() - i,
{
    if i >= rows.len() || before(key, rows[i].key) {
        i
    } else {
        spot_from(rows, key, i + 1)
    }
}

/// Rows in canonical order, equal keys keeping their order.
pub open spec fn ordered(rows: Seq<Row>) -> Seq<Row>
    decreases rows.len(),
{
    if rows.len() == 0 {
        rows
    } else {
        let rest = ordered(rows.drop_last());
        rest.insert(spot_from(rest, rows.last().key, 0), rows.last())
    }
}

/// The encoded rows one after the other.
pub open spec fn laid_out(rows: Seq<Row>) -> Seq<u8>
    decreases rows.len(),
{
    if rows.len() == 0 {
        Seq::empty()
    } else {
        laid_out(rows.drop_last()) + rows.last().key + rows.last().val
    }
}

/// The first key that two neighbouring rows share, from row `i` on.
pub open spec fn repeated_from(rows: Seq<Row>, i: int) -> Option<Seq<u8>>
    decreases rows.len() - i,
{
    if i + 1 >= rows.len() {
        None
    } else if rows[i].key == rows[i + 1].key {
        Some(rows[i].key)
    } else {
        repeated_from(rows, i + 1)
    }
}

/// What is wrong with the first bad row, from row `i` on.
pub open spec fn first_bad(rows: Seq<Row>, i: int) -> Option<Refusal>
    decreases rows.len() - i,
{
    if i >= rows.len() {
        None
    } else if rows[i].bad is Some {
        rows[i].bad
    } else {
        first_bad(rows, i + 1)
    }
}

/// The canonical bytes of a value.
pub open spec fn encoding(v: CanonValue) -> Seq<u8>
    decreases v,
{
    match v {
        CanonValue::Null => seq![246u8],
        CanonValue::Bool(b) => if b {
            seq![245u8]
        } else {
            seq![244u8]
        },
        CanonValue::Int(n) => if n >= 0 {
            head(MAJOR_UINT, n as nat)
        } else {
            head(MAJOR_NEGINT, (-1 - n) as nat)
        },
        CanonValue::Bytes(bytes) => head(MAJOR_BYTES, bytes@.len()) + bytes@,
        CanonValue::Str(text) => head(MAJOR_TEXT, encode_utf8(text@).len()) + encode_utf8(text@),
        CanonValue::Array(items) => head(MAJOR_ARRAY, items@.len()) + encodings(items@),
        CanonValue::Dict(entries) => head(MAJOR_MAP, entries@.len()) + laid_out(
            ordered(rows_of(entries@, 0)),
        ),
    }
}

/// The encodings of several values one after the other.
pub open spec fn encodings(items: Seq<CanonValue>) -> Seq<u8>
    decreases items,
{
    if items.len() == 0 {
        Seq::empty()
    } else {
        encodings(items.drop_last()) + encoding(items.last())
    }
}

/// The rows of map entries whose values sit at nesting depth `depth`.
pub open spec fn rows_of(entries: Seq<(CanonValue, CanonValue)>, depth: int) -> Seq<Row>
    decreases entries,
{
    if entries.len() == 0 {
        Seq::empty()
    } else {
        rows_of(entries.drop_last(), depth).push(
            Row {
                key: encoding(entries.last().0),
                val: encoding(entries.last().1),
                bad: refusal(entries.last().1, depth),
            },
        )
    }
}

/// Whether the keys alone keep map entries from having an encoding: one of
/// them is refused, or two of them encode alike.
pub open spec fn keys_refused(entries: Seq<(CanonValue, CanonValue)>, depth: int) -> bool {
    refusal_among_keys(entries, depth) is Some || repeated_from(
        ordered(rows_of(entries, depth)),
        0,
    ) is Some
}

/// Why a value at nesting depth `depth` has no canonical encoding, if it has
/// none. Keys are looked at in the order given, then duplicates, then values
/// in canonical order.
pub open spec fn refusal(v: CanonValue, depth: int) -> Option<Refusal>
    decreases v,
{
    if depth > MAX_DEPTH {
        Some(Refusal::TooDeep { limit: MAX_DEPTH as int })
    } else {
        match v {
            CanonValue::Int(n) => if MIN_NEGINT <= n <= MAX_UINT {
                None
            } else {
                Some(Refusal::IntOutOfRange { value: n as int })
            },
            CanonValue::Array(items) => refusal_among(items@, depth + 1),
            CanonValue::Dict(entries) => {
                match refusal_among_keys(entries@, depth + 1) {
                    Some(e) => Some(e),
                    None => {
                        let rows = ordered(rows_of(entries@, depth + 1));
                        match repeated_from(rows, 0) {
                            Some(key) => Some(Refusal::DuplicateKey { key_hex: hex_text(key) }),
                            None => first_bad(rows, 0),
                        }
                    },
                }
            },
            _ => None,
        }
    }
}

/// The refusal of the first refused value.
pub open spec fn refusal_among(items: Seq<CanonValue>, depth: int) -> Option<Refusal>
    decreases items,
{
    if items.len() == 0 {
        None
    } else {
        match refusal_among(items.drop_last(), depth) {
            Some(e) => Some(e),
            None => refusal(items.last(), depth),
        }
    }
}

/// The refusal of the first refused key.
pub open spec fn refusal_among_keys(entries: Seq<(CanonValue, CanonValue)>, depth: int) -> Option<
    Refusal,
>
    decreases entries,
{
    if entries.len() == 0 {
        None
    } else {
        match refusal_among_keys(entries.drop_last(), depth) {
            Some(e) => Some(e),
            None => refusal(entries.last().0, depth),
        }
    }
}

// -- the encoder -------------------------------------------------------------

/// Encode a value into the canonical subset.
pub fn encode(value: &CanonValue) -> (r: Result<Vec<u8>, CanonError>)
    ensures
        match r {
            Ok(bytes) => refusal(*value, 0) is None && bytes@ == encoding(*value),
            Err(e) => refusal(*value, 0) == Some(e@),
        },
{
    let mut out: Vec<u8> = Vec::new();
    match write_value(value, 0, &mut out) {
        Ok(_) => Ok(out),
        Err(e) => Err(e),
    }
}

pub(crate) fn append_bytes(out: &mut Vec<u8>, more: &[u8])
    ensures
        final(out)@ == old(out)@ + more@,
{
    let mut i: usize = 0;
    while i < more.len()
        invariant
            i <= more.len(),
            out@ == old(out)@ + more@.take(i as int),
        decreases more.len() - i,
    {
        out.push(more[i]);
        i += 1;
    }
}

/// Writes a value that stands at a nesting depth: what it encodes to is added
/// to what is there.
pub fn write_value(value: &CanonValue, depth: u32, out: &mut Vec<u8>) -> (r: Result<
    (),
    CanonError,
>)
    ensures
        match r {
            Ok(_) => refusal(*value, depth as int) is None && final(out)@ == old(out)@ + encoding(
                *value,
            ),
            Err(e) => refusal(*value, depth as int) == Some(e@),
        },
    decreases value,
{
    if depth > MAX_DEPTH {
        return Err(CanonError::TooDeep { limit: MAX_DEPTH });
    }
    match value {
        CanonValue::Null => out.push(246),
        CanonValue::Bool(b) => out.push(
            if *b {
                245
            } else {
                244
            },
        ),
        CanonValue::Int(n) => {
            return write_int(*n, out);
        },
        CanonValue::Bytes(bytes) => {
            write_head(MAJOR_BYTES, bytes.len() as u64, out);
            append_bytes(out, bytes.as_slice());
            assert(out@ == old(out)@ + encoding(*value));
        },
        CanonValue::Str(text) => {
            let bytes = text.as_str().as_bytes();
            write_head(MAJOR_TEXT, bytes.len() as u64, out);
            append_bytes(out, bytes);
            assert(out@ == old(out)@ + encoding(*value));
        },
        CanonValue::Array(items) => {
            write_head(MAJOR_ARRAY, items.len() as u64, out);
            let mut i: usize = 0;
            while i < items.len()
                invariant
                    i <= items.len(),
                    depth <= MAX_DEPTH,
                    *value == CanonValue::Array(*items),
                    refusal_among(items@.take(i as int), depth + 1) is None,
                    out@ == old(out)@ + head(MAJOR_ARRAY, items@.len()) + encodings(
                        items@.take(i as int),
                    ),
                decreases items.len() - i,
            {
                proof {
                    assert(items@.take(i + 1).drop_last() == items@.take(i as int));
                    assert(items@[i as int] == items@.take(i + 1).last());
                    assert(decreases_to!(*value => items@[i as int]));
                }
                match write_value(&items[i], depth + 1, out) {
                    Ok(_) => {},
                    Err(e) => {
                        proof {
                            lemma_first_refusal(items@, i as int, depth + 1);
                        }
                        return Err(e);
                    },
                }
                i += 1;
            }
            proof {
                assert(items@.take(items.len() as int) == items@);
                assert(out@ == old(out)@ + encoding(*value));
            }
        },
        CanonValue::Dict(entries) => {
            return write_map(entries, depth, out);
        },
    }
    Ok(())
}

/// Bytewise comparison of two encoded keys.
fn is_before(a: &Vec<u8>, b: &Vec<u8>) -> (r: bool)
    ensures
        r == before(a@, b@),
{
    let mut i: usize = 0;
    while i < a.len() && i < b.len() && a[i] == b[i]
        invariant
            i <= a.len(),
            i <= b.len(),
            before_from(a@, b@, i as int) == before(a@, b@),
        decreases a.len() - i,
    {
        i += 1;
    }
    if i >= b.len() {
        false
    } else if i >= a.len() {
        true
    } else {
        a[i] < b[i]
    }
}

fn write_map(
    entries: &Vec<(CanonValue, CanonValue)>,
    depth: u32,
    out: &mut Vec<u8>,
) -> (r: Result<(), CanonError>)
    requires
        depth <= MAX_DEPTH,
    ensures
        match r {
            Ok(_) => refusal(CanonValue::Dict(*entries), depth as int) is None && final(out)@ == old(
                out,
            )@ + encoding(CanonValue::Dict(*entries)),
            Err(e) => refusal(CanonValue::Dict(*entries), depth as int) == Some(e@) && (
            keys_refused(entries@, depth + 1) ==> final(out)@ == old(out)@),
        },
    decreases entries,
{
    // Encode each key first: the canonical order is over encoded key bytes,
    // so it cannot be decided without encoding.
    let ghost rows = rows_of(entries@, depth + 1);
    proof {
        lemma_rows(entries@, depth + 1);
    }
    let mut keys: Vec<Vec<u8>> = Vec::new();
    let mut order: Vec<usize> = Vec::new();
    let mut i: usize = 0;
    while i < entries.len()
        invariant
            i <= entries.len(),
            depth <= MAX_DEPTH,
            rows == rows_of(entries@, depth + 1),
            rows.len() == entries@.len(),
            forall|j: int| 0 <= j < entries@.len() ==> #[trigger] rows[j].key == encoding(entries@[j].0),
            keys.len() == i,
            forall|j: int| 0 <= j < i ==> (#[trigger] keys@[j])@ == rows[j].key,
            order.len() == i,
            forall|j: int| 0 <= j < i ==> 0 <= #[trigger] order@[j] < i,
            Seq::new(i as nat, |j: int| rows[order@[j] as int]) == ordered(rows.take(i as int)),
            refusal_among_keys(entries@.take(i as int), depth + 1) is None,
        decreases entries.len() - i,
    {
        let mut key: Vec<u8> = Vec::new();
        proof {
            assert(entries@.take(i + 1).drop_last() == entries@.take(i as int));
            assert(entries@.take(i + 1).last() == entries@[i as int]);
            assert(decreases_to!(entries => entries@[i as int]));
            assert(decreases_to!(entries => entries@[i as int].0));
        }
        match write_value(&entries[i].0, depth + 1, &mut key) {
            Ok(_) => {},
            Err(e) => {
                proof {
                    lemma_first_key_refusal(entries@, i as int, depth + 1);
                }
                return Err(e);
            },
        }
        let ghost sorted = ordered(rows.take(i as int));
        let mut at: usize = 0;
        while at < order.len() && !is_before(&key, &keys[order[at]])
            invariant
                at <= order.len(),
                order.len() == i,
                keys.len() == i,
                forall|j: int| 0 <= j < i ==> (#[trigger] keys@[j])@ == rows[j].key,
                forall|j: int| 0 <= j < i ==> 0 <= #[trigger] order@[j] < i,
                sorted == Seq::new(i as nat, |j: int| rows[order@[j] as int]),
                spot_from(sorted, key@, at as int) == spot_from(sorted, key@, 0),
            decreases order.len() - at,
        {
            at += 1;
        }
        proof {
            assert(rows.take(i + 1).drop_last() == rows.take(i as int));
            assert(rows.take(i + 1).last() == rows[i as int]);
            assert(key@ == rows[i as int].key);
            assert(at == spot_from(sorted, key@, 0));
        }
        let ghost order0 = order@;
        order.insert(at, i);
        keys.push(key);
        proof {
            assert(order@ == order0.insert(at as int, i));
            assert(Seq::new((i + 1) as nat, |j: int| rows[order@[j] as int]) == sorted.insert(
                at as int,
                rows[i as int],
            ));
        }
        i += 1;
    }
    let ghost sorted = ordered(rows);
    proof {
        assert(entries@.take(entries.len() as int) == entries@);
        assert(rows.take(entries.len() as int) == rows);
    }
    if let Some(dup) = first_duplicate(&keys, &order, Ghost(sorted)) {
        return Err(CanonError::DuplicateKey { key_hex: hex_of(dup) });
    }
    write_head(MAJOR_MAP, entries.len() as u64, out);
    let mut i: usize = 0;
    while i < entries.len()
        invariant
            i <= entries.len(),
            depth <= MAX_DEPTH,
            rows == rows_of(entries@, depth + 1),
            rows.len() == entries@.len(),
            keys.len() == entries.len(),
            order.len() == entries.len(),
            forall|j: int| 0 <= j < keys.len() ==> (#[trigger] keys@[j])@ == rows[j].key,
            forall|j: int| 0 <= j < order.len() ==> 0 <= #[trigger] order@[j] < entries.len(),
            sorted == Seq::new(entries@.len(), |j: int| rows[order@[j] as int]),
            forall|j: int|
                0 <= j < entries@.len() ==> (#[trigger] rows[j]).val == encoding(entries@[j].1)
                    && rows[j].bad == refusal(entries@[j].1, depth + 1),
            refusal_among_keys(entries@, depth + 1) is None,
            sorted == ordered(rows),
            repeated_from(sorted, 0) is None,
            first_bad(sorted, 0) == first_bad(sorted, i as int),
            out@ == old(out)@ + head(MAJOR_MAP, entries@.len()) + laid_out(sorted.take(i as int)),
        decreases entries.len() - i,
    {
        let at = order[i];
        let ghost out0 = out@;
        append_bytes(out, keys[at].as_slice());
        proof {
            assert(sorted[i as int] == rows[at as int]);
            assert(sorted.take(i + 1).drop_last() == sorted.take(i as int));
            assert(decreases_to!(entries => entries@[at as int]));
            assert(decreases_to!(entries => entries@[at as int].1));
        }
        match write_value(&entries[at].1, depth + 1, out) {
            Ok(_) => {},
            Err(e) => {
                return Err(e);
            },
        }
        proof {
            assert(out@ == out0 + sorted[i as int].key + sorted[i as int].val);
            assert(out@ == old(out)@ + head(MAJOR_MAP, entries@.len()) + laid_out(
                sorted.take(i + 1),
            ));
        }
        i += 1;
    }
    proof {
        assert(sorted.take(entries.len() as int) == sorted);
        lemma_depth_free(entries@, depth + 1, 0);
        lemma_layout_free(rows, rows_of(entries@, 0));
        assert(out@ == old(out)@ + encoding(CanonValue::Dict(*entries)));
    }
    Ok(())
}

/// The first key that two neighbours in the order share.
fn first_duplicate<'a>(
    keys: &'a Vec<Vec<u8>>,
    order: &Vec<usize>,
    Ghost(sorted): Ghost<Seq<Row>>,
) -> (r: Option<&'a Vec<u8>>)
    requires
        order.len() == sorted.len(),
        forall|j: int| 0 <= j < order.len() ==> 0 <= #[trigger] order@[j] < keys.len(),
        forall|j: int| 0 <= j < order.len() ==> (#[trigger] sorted[j]).key == keys@[order@[j] as int]@,
    ensures
        match r {
            Some(key) => repeated_from(sorted, 0) == Some(key@),
            None => repeated_from(sorted, 0) is None,
        },
{
    let mut i: usize = 0;
    while i < order.len() && i + 1 < order.len()
        invariant
            i <= order.len(),
            order.len() == sorted.len(),
            forall|j: int| 0 <= j < order.len() ==> 0 <= #[trigger] order@[j] < keys.len(),
            forall|j: int|
                0 <= j < order.len() ==> (#[trigger] sorted[j]).key == keys@[order@[j] as int]@,
            repeated_from(sorted, 0) == repeated_from(sorted, i as int),
        decreases order.len() - i,
    {
        let left = &keys[order[i]];
        let right = &keys[order[i + 1]];
        proof {
            assert(sorted[i as int].key == left@);
            assert(sorted[i + 1].key == right@);
        }
        if same_bytes(left, right) {
            return Some(left);
        }
        i += 1;
    }
    None
}

fn same_bytes(a: &Vec<u8>, b: &Vec<u8>) -> (r: bool)
    ensures
        r == (a@ == b@),
{
    if a.len() != b.len() {
        return false;
    }
    let mut i: usize = 0;
    while i < a.len()
        invariant
            i <= a.len(),
            a.len() == b.len(),
            forall|j: int| 0 <= j < i ==> a@[j] == b@[j],
        decreases a.len() - i,
    {
        if a[i] != b[i] {
            return false;
        }
        i += 1;
    }
    assert(a@ == b@);
    true
}

/// CBOR splits the integer line at zero: non-negative values are major 0
/// holding n, negative values are major 1 holding -1 - n.
fn write_int(value: i128, out: &mut Vec<u8>) -> (r: Result<(), CanonError>)
    ensures
        match r {
            Ok(_) => MIN_NEGINT <= value <= MAX_UINT && final(out)@ == old(out)@ + encoding(
                CanonValue::Int(value),
            ),
            Err(e) => !(MIN_NEGINT <= value <= MAX_UINT) && e@ == (Refusal::IntOutOfRange {
                value: value as int,
            }),
        },
{
    if value < MIN_NEGINT || value > MAX_UINT {
        return Err(CanonError::IntOutOfRange { value });
    }
    if value >= 0 {
        write_head(MAJOR_UINT, value as u64, out);
    } else {
        write_head(MAJOR_NEGINT, (-1 - value) as u64, out);
    }
    Ok(())
}

fn write_big_endian(n: u64, k: usize, out: &mut Vec<u8>)
    ensures
        final(out)@ == old(out)@ + big_endian(n as nat, k as nat),
    decreases k,
{
    if k > 0 {
        write_big_endian(n / 256, k - 1, out);
        out.push((n % 256) as u8);
    }
}

/// Write a head byte plus the shortest argument encoding that holds `value`.
fn write_head(major: u8, value: u64, out: &mut Vec<u8>)
    requires
        major < 8,
    ensures
        final(out)@ == old(out)@ + head(major, value as nat),
{
    let top: u8 = major * 32;
    // Values below 24 live in the head byte itself; 24..=27 are the reserved
    // width markers, which is why the inline range stops at 23.
    if value < 24 {
        out.push(top + value as u8);
    } else if value < 0x100 {
        out.push(top + 24);
        write_big_endian(value, 1, out);
    } else if value < 0x1_0000 {
        out.push(top + 25);
        write_big_endian(value, 2, out);
    } else if value < 0x1_0000_0000 {
        out.push(top + 26);
        write_big_endian(value, 4, out);
    } else {
        out.push(top + 27);
        write_big_endian(value, 8, out);
    }
}

// -- lemmas ------------------------------------------------------------------

proof fn lemma_first_refusal(items: Seq<CanonValue>, i: int, depth: int)
    requires
        0 <= i < items.len(),
        refusal_among(items.take(i + 1), depth) is Some,
    ensures
        refusal_among(items, depth) == refusal_among(items.take(i + 1), depth),
    decreases items.len(),
{
    if i + 1 == items.len() {
        assert(items.take(i + 1) == items);
    } else {
        assert(items.drop_last().take(i + 1) == items.take(i + 1));
        lemma_first_refusal(items.drop_last(), i, depth);
    }
}

proof fn lemma_first_key_refusal(entries: Seq<(CanonValue, CanonValue)>, i: int, depth: int)
    requires
        0 <= i < entries.len(),
        refusal_among_keys(entries.take(i + 1), depth) is Some,
    ensures
        refusal_among_keys(entries, depth) == refusal_among_keys(entries.take(i + 1), depth),
    decreases entries.len(),
{
    if i + 1 == entries.len() {
        assert(entries.take(i + 1) == entries);
    } else {
        assert(entries.drop_last().take(i + 1) == entries.take(i + 1));
        lemma_first_key_refusal(entries.drop_last(), i, depth);
    }
}

proof fn lemma_rows(entries: Seq<(CanonValue, CanonValue)>, depth: int)
    ensures
        rows_of(entries, depth).len() == entries.len(),
        forall|j: int|
            0 <= j < entries.len() ==> (#[trigger] rows_of(entries, depth)[j]) == (Row {
                key: encoding(entries[j].0),
                val: encoding(entries[j].1),
                bad: refusal(entries[j].1, depth),
            }),
    decreases entries.len(),
{
    if entries.len() > 0 {
        lemma_rows(entries.drop_last(), depth);
    }
}

/// Rows that agree but for what is wrong with them.
spec fn alike(a: Seq<Row>, b: Seq<Row>) -> bool {
    a.len() == b.len() && forall|j: int|
        0 <= j < a.len() ==> (#[trigger] a[j]).key == b[j].key && a[j].val == b[j].val
}

proof fn lemma_depth_free(entries: Seq<(CanonValue, CanonValue)>, d: int, e: int)
    ensures
        alike(rows_of(entries, d), rows_of(entries, e)),
{
    lemma_rows(entries, d);
    lemma_rows(entries, e);
}

proof fn lemma_spot_bounds(rows: Seq<Row>, key: Seq<u8>, i: int)
    requires
        0 <= i <= rows.len(),
    ensures
        i <= spot_from(rows, key, i) <= rows.len(),
    decreases rows.len() - i,
{
    if i < rows.len() && !before(key, rows[i].key) {
        lemma_spot_bounds(rows, key, i + 1);
    }
}

proof fn lemma_spot_alike(a: Seq<Row>, b: Seq<Row>, key: Seq<u8>, i: int)
    requires
        alike(a, b),
        0 <= i,
    ensures
        spot_from(a, key, i) == spot_from(b, key, i),
    decreases a.len() - i,
{
    if i < a.len() {
        assert(a[i].key == b[i].key);
        lemma_spot_alike(a, b, key, i + 1);
    }
}

proof fn lemma_layout_free(a: Seq<Row>, b: Seq<Row>)
    requires
        alike(a, b),
    ensures
        alike(ordered(a), ordered(b)),
        laid_out(ordered(a)) == laid_out(ordered(b)),
{
    lemma_ordered_alike(a, b);
    lemma_laid_out_alike(ordered(a), ordered(b));
}

proof fn lemma_ordered_alike(a: Seq<Row>, b: Seq<Row>)
    requires
        alike(a, b),
    ensures
        alike(ordered(a), ordered(b)),
    decreases a.len(),
{
    if a.len() > 0 {
        assert(a.last().key == b.last().key && a.last().val == b.last().val) by {
            assert(a[a.len() - 1].key == b[a.len() - 1].key);
        }
        assert(alike(a.drop_last(), b.drop_last()));
        lemma_ordered_alike(a.drop_last(), b.drop_last());
        let ra = ordered(a.drop_last());
        let rb = ordered(b.drop_last());
        lemma_spot_alike(ra, rb, a.last().key, 0);
        lemma_spot_bounds(ra, a.last().key, 0);
        let at = spot_from(ra, a.last().key, 0);
        assert forall|j: int| 0 <= j < ra.len() + 1 implies (#[trigger] ra.insert(
            at,
            a.last(),
        )[j]).key == rb.insert(at, b.last())[j].key && ra.insert(at, a.last())[j].val == rb.insert(
            at,
            b.last(),
        )[j].val by {
            if j < at {
                assert(ra[j].key == rb[j].key);
            } else if j > at {
                assert(ra[j - 1].key == rb[j - 1].key);
            }
        }
    }
}

proof fn lemma_laid_out_alike(a: Seq<Row>, b: Seq<Row>)
    requires
        alike(a, b),
    ensures
        laid_out(a) == laid_out(b),
    decreases a.len(),
{
    if a.len() > 0 {
        assert(a.last().key == b.last().key && a.last().val == b.last().val) by {
            assert(a[a.len() - 1].key == b[a.len() - 1].key);
        }
        assert(alike(a.drop_last(), b.drop_last()));
        lemma_laid_out_alike(a.drop_last(), b.drop_last());
    }
}

// -- the order ---------------------------------------------------------------

proof fn lemma_before_total(a: Seq<u8>, b: Seq<u8>, i: int)
    requires
        0 <= i,
        forall|k: int| 0 <= k < i && k < a.len() && k < b.len() ==> a[k] == b[k],
        i <= a.len(),
        i <= b.len(),
        !before_from(a, b, i),
        !before_from(b, a, i),
    ensures
        a == b,
    decreases a.len() - i,
{
    if i < a.len() && i < b.len() {
        lemma_before_total(a, b, i + 1);
    } else {
        assert(a =~= b);
    }
}

proof fn lemma_before_trans(a: Seq<u8>, b: Seq<u8>, c: Seq<u8>, i: int)
    requires
        0 <= i,
        before_from(a, b, i),
        before_from(b, c, i),
    ensures
        before_from(a, c, i),
    decreases b.len() - i,
{
    if i < a.len() && i < b.len() && i < c.len() && a[i] == b[i] && b[i] == c[i] {
        lemma_before_trans(a, b, c, i + 1);
    }
}

proof fn lemma_before_asym(a: Seq<u8>, b: Seq<u8>, i: int)
    requires
        0 <= i,
        before_from(a, b, i),
    ensures
        !before_from(b, a, i),
    decreases b.len() - i,
{
    if i < a.len() && i < b.len() && a[i] == b[i] {
        lemma_before_asym(a, b, i + 1);
    }
}

/// No later row has a key before an earlier one's.
spec fn in_order(rows: Seq<Row>) -> bool {
    forall|p: int, q: int|
        0 <= p < q < rows.len() ==> !before(#[trigger] rows[q].key, #[trigger] rows[p].key)
}

proof fn lemma_spot(rows: Seq<Row>, key: Seq<u8>, i: int)
    requires
        0 <= i <= rows.len(),
    ensures
        i <= spot_from(rows, key, i) <= rows.len(),
        forall|j: int| i <= j < spot_from(rows, key, i) ==> !before(key, #[trigger] rows[j].key),
        spot_from(rows, key, i) < rows.len() ==> before(key, rows[spot_from(rows, key, i)].key),
    decreases rows.len() - i,
{
    if i < rows.len() && !before(key, rows[i].key) {
        lemma_spot(rows, key, i + 1);
    }
}

proof fn lemma_ordered(rows: Seq<Row>)
    ensures
        ordered(rows).len() == rows.len(),
        in_order(ordered(rows)),
        forall|p: int| 0 <= p < rows.len() ==> rows.contains(#[trigger] ordered(rows)[p]),
        forall|i: int| 0 <= i < rows.len() ==> ordered(rows).contains(#[trigger] rows[i]),
    decreases rows.len(),
{
    if rows.len() > 0 {
        lemma_ordered(rows.drop_last());
        let rest = ordered(rows.drop_last());
        let new = rows.last();
        lemma_spot(rest, new.key, 0);
        let at = spot_from(rest, new.key, 0);
        let all = rest.insert(at, new);
        assert forall|p: int, q: int| 0 <= p < q < all.len() implies !before(
            #[trigger] all[q].key,
            #[trigger] all[p].key,
        ) by {
            if q == at {
                // keys left of the spot are not above the new one
                assert(all[p] == rest[p]);
            } else if p == at {
                assert(all[q] == rest[q - 1]);
                assert(before(new.key, rest[at].key));
                if before(rest[q - 1].key, new.key) {
                    lemma_before_trans(rest[q - 1].key, new.key, rest[at].key, 0);
                    if q - 1 != at {
                        assert(!before(rest[q - 1].key, rest[at].key));
                    } else {
                        lemma_before_asym(rest[at].key, rest[at].key, 0);
                    }
                }
            } else {
                let p0 = if p < at {
                    p
                } else {
                    p - 1
                };
                let q0 = if q < at {
                    q
                } else {
                    q - 1
                };
                assert(all[p] == rest[p0] && all[q] == rest[q0]);
            }
        }
        assert forall|p: int| 0 <= p < rows.len() implies rows.contains(#[trigger] all[p]) by {
            if p == at {
                assert(rows[rows.len() - 1] == all[p]);
            } else {
                let p0 = if p < at {
                    p
                } else {
                    p - 1
                };
                assert(all[p] == rest[p0]);
                let i = choose|i: int| 0 <= i < rows.len() - 1 && rows.drop_last()[i] == rest[p0];
                assert(rows[i] == all[p]);
            }
        }
        assert forall|i: int| 0 <= i < rows.len() implies all.contains(#[trigger] rows[i]) by {
            if i == rows.len() - 1 {
                assert(all[at] == rows[i]);
            } else {
                assert(rows.drop_last()[i] == rows[i]);
                let p = choose|p: int| 0 <= p < rest.len() && rest[p] == rows[i];
                if p < at {
                    assert(all[p] == rows[i]);
                } else {
                    assert(all[p + 1] == rows[i]);
                }
            }
        }
    }
}

proof fn lemma_no_neighbours(rows: Seq<Row>, i: int)
    requires
        0 <= i,
        repeated_from(rows, i) is None,
    ensures
        forall|p: int| i <= p < rows.len() - 1 ==> (#[trigger] rows[p]).key != rows[p + 1].key,
    decreases rows.len() - i,
{
    if i + 1 < rows.len() {
        lemma_no_neighbours(rows, i + 1);
    }
}

/// Every earlier key is before every later one.
spec fn strictly_in_order(rows: Seq<Row>) -> bool {
    forall|p: int, q: int|
        0 <= p < q < rows.len() ==> before(#[trigger] rows[p].key, #[trigger] rows[q].key)
}

proof fn lemma_strict(rows: Seq<Row>)
    requires
        in_order(rows),
        repeated_from(rows, 0) is None,
    ensures
        strictly_in_order(rows),
{
    lemma_no_neighbours(rows, 0);
    assert forall|p: int, q: int| 0 <= p < q < rows.len() implies before(
        #[trigger] rows[p].key,
        #[trigger] rows[q].key,
    ) by {
        if !before(rows[p].key, rows[q].key) {
            lemma_before_total(rows[p].key, rows[q].key, 0);
            assert(rows[p].key != rows[p + 1].key);
            assert(!before(rows[p + 1].key, rows[p].key));
            if q > p + 1 {
                assert(!before(rows[q].key, rows[p + 1].key));
            }
            lemma_before_total(rows[p].key, rows[p + 1].key, 0);
        }
    }
}

proof fn lemma_all_good(rows: Seq<Row>, i: int)
    requires
        0 <= i,
        first_bad(rows, i) is None,
    ensures
        forall|p: int| i <= p < rows.len() ==> (#[trigger] rows[p]).bad is None,
    decreases rows.len() - i,
{
    if i < rows.len() {
        lemma_all_good(rows, i + 1);
    }
}

proof fn lemma_items_accepted(items: Seq<CanonValue>, depth: int)
    requires
        refusal_among(items, depth) is None,
    ensures
        forall|i: int| 0 <= i < items.len() ==> refusal(#[trigger] items[i], depth) is None,
    decreases items.len(),
{
    if items.len() > 0 {
        lemma_items_accepted(items.drop_last(), depth);
        assert forall|i: int| 0 <= i < items.len() implies refusal(#[trigger] items[i], depth) is None by {
            if i < items.len() - 1 {
                assert(items.drop_last()[i] == items[i]);
            }
        }
    }
}

proof fn lemma_keys_accepted(entries: Seq<(CanonValue, CanonValue)>, depth: int)
    requires
        refusal_among_keys(entries, depth) is None,
    ensures
        forall|i: int| 0 <= i < entries.len() ==> refusal(#[trigger] entries[i].0, depth) is None,
    decreases entries.len(),
{
    if entries.len() > 0 {
        lemma_keys_accepted(entries.drop_last(), depth);
        assert forall|i: int| 0 <= i < entries.len() implies refusal(
            #[trigger] entries[i].0,
            depth,
        ) is None by {
            if i < entries.len() - 1 {
                assert(entries.drop_last()[i].0 == entries[i].0);
            }
        }
    }
}

proof fn lemma_entries_accepted(entries: Vec<(CanonValue, CanonValue)>, depth: int)
    requires
        refusal(CanonValue::Dict(entries), depth) is None,
    ensures
        forall|i: int|
            0 <= i < entries@.len() ==> refusal(#[trigger] entries@[i].0, depth + 1) is None,
        forall|i: int|
            0 <= i < entries@.len() ==> refusal(#[trigger] entries@[i].1, depth + 1) is None,
        strictly_in_order(ordered(rows_of(entries@, depth + 1))),
{
    lemma_keys_accepted(entries@, depth + 1);
    let rows = rows_of(entries@, depth + 1);
    lemma_rows(entries@, depth + 1);
    lemma_ordered(rows);
    lemma_strict(ordered(rows));
    lemma_all_good(ordered(rows), 0);
    assert forall|i: int| 0 <= i < entries@.len() implies refusal(
        #[trigger] entries@[i].1,
        depth + 1,
    ) is None by {
        assert(ordered(rows).contains(rows[i]));
        let p = choose|p: int| 0 <= p < ordered(rows).len() && ordered(rows)[p] == rows[i];
        assert(ordered(rows)[p].bad is None);
    }
}

// -- depth -------------------------------------------------------------------

proof fn lemma_items_accept(items: Seq<CanonValue>, depth: int)
    requires
        forall|i: int| 0 <= i < items.len() ==> refusal(#[trigger] items[i], depth) is None,
    ensures
        refusal_among(items, depth) is None,
    decreases items.len(),
{
    if items.len() > 0 {
        let low = items.drop_last();
        assert forall|i: int| 0 <= i < low.len() implies refusal(#[trigger] low[i], depth) is None by {
            assert(low[i] == items[i]);
        }
        lemma_items_accept(low, depth);
        assert(refusal(items[items.len() - 1], depth) is None);
    }
}

proof fn lemma_keys_accept(entries: Seq<(CanonValue, CanonValue)>, depth: int)
    requires
        forall|i: int| 0 <= i < entries.len() ==> refusal(#[trigger] entries[i].0, depth) is None,
    ensures
        refusal_among_keys(entries, depth) is None,
    decreases entries.len(),
{
    if entries.len() > 0 {
        let low = entries.drop_last();
        assert forall|i: int| 0 <= i < low.len() implies refusal(
            #[trigger] low[i].0,
            depth,
        ) is None by {
            assert(low[i] == entries[i]);
        }
        lemma_keys_accept(low, depth);
        assert(refusal(entries[entries.len() - 1].0, depth) is None);
    }
}

proof fn lemma_good_all(rows: Seq<Row>, i: int)
    requires
        0 <= i,
        forall|p: int| i <= p < rows.len() ==> (#[trigger] rows[p]).bad is None,
    ensures
        first_bad(rows, i) is None,
    decreases rows.len() - i,
{
    if i < rows.len() {
        lemma_good_all(rows, i + 1);
    }
}

proof fn lemma_repeated_alike(a: Seq<Row>, b: Seq<Row>, i: int)
    requires
        alike(a, b),
        0 <= i,
    ensures
        repeated_from(a, i) == repeated_from(b, i),
    decreases a.len() - i,
{
    if i + 1 < a.len() {
        assert(a[i].key == b[i].key);
        assert(a[i + 1].key == b[i + 1].key);
        lemma_repeated_alike(a, b, i + 1);
    }
}

/// A value that has an encoding at some depth has one nearer the root, and at
/// the root itself. It is the same one: what a value encodes to takes no depth.
pub proof fn law_accepted_nearer_the_root(v: CanonValue, depth: int, nearer: int)
    requires
        nearer <= depth,
        refusal(v, depth) is None,
    ensures
        refusal(v, nearer) is None,
    decreases v,
{
    match v {
        CanonValue::Array(items) => {
            lemma_items_accepted(items@, depth + 1);
            assert forall|i: int| 0 <= i < items@.len() implies refusal(
                #[trigger] items@[i],
                nearer + 1,
            ) is None by {
                assert(decreases_to!(v => items@[i]));
                law_accepted_nearer_the_root(items@[i], depth + 1, nearer + 1);
            }
            lemma_items_accept(items@, nearer + 1);
        },
        CanonValue::Dict(entries) => {
            lemma_entries_accepted(entries, depth);
            assert forall|i: int| 0 <= i < entries@.len() implies refusal(
                #[trigger] entries@[i].0,
                nearer + 1,
            ) is None by {
                assert(decreases_to!(v => entries@[i]));
                assert(decreases_to!(v => entries@[i].0));
                law_accepted_nearer_the_root(entries@[i].0, depth + 1, nearer + 1);
            }
            assert forall|i: int| 0 <= i < entries@.len() implies refusal(
                #[trigger] entries@[i].1,
                nearer + 1,
            ) is None by {
                assert(decreases_to!(v => entries@[i]));
                assert(decreases_to!(v => entries@[i].1));
                law_accepted_nearer_the_root(entries@[i].1, depth + 1, nearer + 1);
            }
            lemma_keys_accept(entries@, nearer + 1);
            let far = rows_of(entries@, depth + 1);
            let near = rows_of(entries@, nearer + 1);
            lemma_rows(entries@, nearer + 1);
            lemma_depth_free(entries@, depth + 1, nearer + 1);
            lemma_ordered_alike(far, near);
            lemma_repeated_alike(ordered(far), ordered(near), 0);
            lemma_ordered(near);
            assert forall|p: int| 0 <= p < ordered(near).len() implies (#[trigger] ordered(
                near,
            )[p]).bad is None by {
                assert(near.contains(ordered(near)[p]));
                let j = choose|j: int| 0 <= j < near.len() && near[j] == ordered(near)[p];
                assert(near[j].bad == refusal(entries@[j].1, nearer + 1));
            }
            lemma_good_all(ordered(near), 0);
        },
        _ => {},
    }
}

proof fn lemma_least_repeated(rows: Seq<Row>, i: int)
    requires
        in_order(rows),
        0 <= i,
    ensures
        match repeated_from(rows, i) {
            Some(key) => {
                &&& exists|p: int|
                    i <= p < rows.len() - 1 && (#[trigger] rows[p]).key == key && rows[p + 1].key
                        == key
                &&& forall|p: int, q: int|
                    i <= p < q < rows.len() && (#[trigger] rows[p]).key == (
                    #[trigger] rows[q]).key ==> !before(rows[p].key, key)
            },
            None => true,
        },
    decreases rows.len() - i,
{
    if i + 1 < rows.len() {
        if rows[i].key == rows[i + 1].key {
            let key = rows[i].key;
            assert forall|p: int, q: int|
                i <= p < q < rows.len() && (#[trigger] rows[p]).key == (#[trigger] rows[q]).key
            implies !before(rows[p].key, key) by {
                if p == i {
                    lemma_before_irreflexive(key, 0);
                }
            }
        } else {
            lemma_least_repeated(rows, i + 1);
            if repeated_from(rows, i) is Some {
                let key = repeated_from(rows, i)->0;
                assert forall|p: int, q: int|
                    i <= p < q < rows.len() && (#[trigger] rows[p]).key == (
                    #[trigger] rows[q]).key implies !before(rows[p].key, key) by {
                    if p == i {
                        assert(!before(rows[i + 1].key, rows[i].key));
                        if q > i + 1 {
                            assert(!before(rows[q].key, rows[i + 1].key));
                        }
                        lemma_before_total(rows[i].key, rows[i + 1].key, 0);
                    }
                }
            }
        }
    }
}

proof fn lemma_before_irreflexive(a: Seq<u8>, i: int)
    requires
        0 <= i,
    ensures
        !before_from(a, a, i),
    decreases a.len() - i,
{
    if i < a.len() {
        lemma_before_irreflexive(a, i + 1);
    }
}

/// The key that a map is refused for as a duplicate is the bytewise least of
/// those that occur twice among its rows.
pub proof fn law_least_duplicate_is_reported(rows: Seq<Row>, p: int, q: int)
    requires
        0 <= p < q < rows.len(),
        ordered(rows)[p].key == ordered(rows)[q].key,
    ensures
        repeated_from(ordered(rows), 0) is Some,
        !before(ordered(rows)[p].key, repeated_from(ordered(rows), 0)->0),
{
    lemma_ordered(rows);
    lemma_least_repeated(ordered(rows), 0);
    if repeated_from(ordered(rows), 0) is None {
        lemma_strict(ordered(rows));
        lemma_before_irreflexive(ordered(rows)[p].key, 0);
    }
}

// -- prefixes ----------------------------------------------------------------

spec fn pow256(k: nat) -> nat
    decreases k,
{
    if k == 0 {
        1
    } else {
        256 * pow256((k - 1) as nat)
    }
}

proof fn lemma_big_endian_len(n: nat, k: nat)
    ensures
        big_endian(n, k).len() == k,
    decreases k,
{
    if k > 0 {
        lemma_big_endian_len(n / 256, (k - 1) as nat);
    }
}

proof fn lemma_big_endian_injective(n: nat, m: nat, k: nat)
    requires
        n < pow256(k),
        m < pow256(k),
        big_endian(n, k) == big_endian(m, k),
    ensures
        n == m,
    decreases k,
{
    if k > 0 {
        let a = big_endian(n, k);
        let b = big_endian(m, k);
        lemma_big_endian_len(n / 256, (k - 1) as nat);
        lemma_big_endian_len(m / 256, (k - 1) as nat);
        assert(a.last() == (n % 256) as u8);
        assert(b.last() == (m % 256) as u8);
        assert(a.drop_last() =~= big_endian(n / 256, (k - 1) as nat));
        assert(b.drop_last() =~= big_endian(m / 256, (k - 1) as nat));
        lemma_big_endian_injective(n / 256, m / 256, (k - 1) as nat);
    }
}

/// How many argument bytes follow the head byte.
spec fn width(n: nat) -> nat {
    if n < 24 {
        0
    } else if n < 0x100 {
        1
    } else if n < 0x1_0000 {
        2
    } else if n < 0x1_0000_0000 {
        4
    } else {
        8
    }
}

/// The low five bits of the head byte.
spec fn marker(n: nat) -> nat {
    if n < 24 {
        n
    } else if n < 0x100 {
        24
    } else if n < 0x1_0000 {
        25
    } else if n < 0x1_0000_0000 {
        26
    } else {
        27
    }
}

proof fn lemma_head_shape(major: u8, n: nat)
    requires
        major < 8,
    ensures
        head(major, n) == seq![(major * 32 + marker(n)) as u8] + big_endian(n, width(n)),
        head(major, n).len() == 1 + width(n),
        head(major, n)[0] == major * 32 + marker(n),
{
    lemma_big_endian_len(n, width(n));
    assert(head(major, n) =~= seq![(major * 32 + marker(n)) as u8] + big_endian(n, width(n)));
}

proof fn lemma_head_injective(m1: u8, n1: nat, r1: Seq<u8>, m2: u8, n2: nat, r2: Seq<u8>)
    requires
        m1 < 8,
        m2 < 8,
        n1 <= u64::MAX,
        n2 <= u64::MAX,
        head(m1, n1) + r1 == head(m2, n2) + r2,
    ensures
        m1 == m2,
        n1 == n2,
        r1 == r2,
{
    lemma_head_shape(m1, n1);
    lemma_head_shape(m2, n2);
    let s = head(m1, n1) + r1;
    let t = head(m2, n2) + r2;
    assert(s[0] == t[0]);
    assert(m1 == m2 && marker(n1) == marker(n2));
    let k = width(n1);
    assert(width(n2) == k);
    assert(big_endian(n1, k) =~= s.subrange(1, (1 + k) as int));
    assert(big_endian(n2, k) =~= t.subrange(1, (1 + k) as int));
    assert(pow256(0) == 1 && pow256(1) == 0x100 && pow256(2) == 0x1_0000 && pow256(4)
        == 0x1_0000_0000 && pow256(8) == 0x1_0000_0000_0000_0000) by {
        reveal_with_fuel(pow256, 9);
    }
    if n1 >= 24 {
        lemma_big_endian_injective(n1, n2, k);
    }
    assert(r1 =~= s.skip((1 + k) as int));
    assert(r2 =~= t.skip((1 + k) as int));
}

/// The major type that a value's first byte names.
spec fn major_of(v: CanonValue) -> int {
    match v {
        CanonValue::Null => 7,
        CanonValue::Bool(_) => 7,
        CanonValue::Int(n) => if n >= 0 {
            0
        } else {
            1
        },
        CanonValue::Bytes(_) => 2,
        CanonValue::Str(_) => 3,
        CanonValue::Array(_) => 4,
        CanonValue::Dict(_) => 5,
    }
}

proof fn lemma_major(v: CanonValue)
    ensures
        encoding(v).len() > 0,
        encoding(v)[0] as int / 32 == major_of(v),
{
    match v {
        CanonValue::Int(n) => {
            if n >= 0 {
                lemma_head_shape(MAJOR_UINT, n as nat);
            } else {
                lemma_head_shape(MAJOR_NEGINT, (-1 - n) as nat);
            }
        },
        CanonValue::Bytes(b) => lemma_head_shape(MAJOR_BYTES, b@.len()),
        CanonValue::Str(t) => lemma_head_shape(MAJOR_TEXT, encode_utf8(t@).len()),
        CanonValue::Array(x) => lemma_head_shape(MAJOR_ARRAY, x@.len()),
        CanonValue::Dict(x) => lemma_head_shape(MAJOR_MAP, x@.len()),
        _ => {},
    }
}

// -- the laws ----------------------------------------------------------------

/// Equal up to the order of map entries: two maps are the same when every
/// entry of one has an entry in the other with the same key and the same
/// value.
pub open spec fn same(a: CanonValue, b: CanonValue) -> bool
    decreases a,
{
    match (a, b) {
        (CanonValue::Null, CanonValue::Null) => true,
        (CanonValue::Bool(x), CanonValue::Bool(y)) => x == y,
        (CanonValue::Int(x), CanonValue::Int(y)) => x == y,
        (CanonValue::Bytes(x), CanonValue::Bytes(y)) => x@ == y@,
        (CanonValue::Str(x), CanonValue::Str(y)) => x@ == y@,
        (CanonValue::Array(x), CanonValue::Array(y)) => {
            &&& x@.len() == y@.len()
            &&& forall|i: int| 0 <= i < x@.len() ==> same(#[trigger] x@[i], y@[i])
        },
        (CanonValue::Dict(x), CanonValue::Dict(y)) => {
            &&& x@.len() == y@.len()
            &&& forall|i: int| 0 <= i < x@.len() ==> has_entry(#[trigger] x@[i], y@)
            &&& forall|j: int| 0 <= j < y@.len() ==> entry_of(x@, #[trigger] y@[j])
        },
        _ => false,
    }
}

/// Some entry of `ys` is the same as `e`.
pub open spec fn has_entry(
    e: (CanonValue, CanonValue),
    ys: Seq<(CanonValue, CanonValue)>,
) -> bool
    decreases e,
{
    exists|j: int|
        #![trigger ys[j]]
        0 <= j < ys.len() && same(e.0, ys[j].0) && same(e.1, ys[j].1)
}

/// `e` is the same as some entry of `xs`.
pub open spec fn entry_of(
    xs: Seq<(CanonValue, CanonValue)>,
    e: (CanonValue, CanonValue),
) -> bool
    decreases xs,
{
    exists|i: int|
        #![trigger xs[i]]
        0 <= i < xs.len() && same(xs[i].0, e.0) && same(xs[i].1, e.1)
}

proof fn lemma_encodings_front(items: Seq<CanonValue>)
    requires
        items.len() > 0,
    ensures
        encodings(items) == encoding(items[0]) + encodings(items.drop_first()),
    decreases items.len(),
{
    if items.len() > 1 {
        lemma_encodings_front(items.drop_last());
        assert(items.drop_last().drop_first() =~= items.drop_first().drop_last());
        assert(items.drop_first().last() == items.last());
        assert(encodings(items) =~= encoding(items[0]) + encodings(items.drop_first()));
    } else {
        assert(items.drop_last() =~= Seq::empty());
        assert(items.drop_first() =~= Seq::empty());
        assert(encodings(items) =~= encoding(items[0]) + encodings(items.drop_first()));
    }
}

proof fn lemma_laid_out_front(rows: Seq<Row>)
    requires
        rows.len() > 0,
    ensures
        laid_out(rows) == rows[0].key + rows[0].val + laid_out(rows.drop_first()),
    decreases rows.len(),
{
    if rows.len() > 1 {
        lemma_laid_out_front(rows.drop_last());
        assert(rows.drop_last().drop_first() =~= rows.drop_first().drop_last());
        assert(rows.drop_first().last() == rows.last());
        assert(laid_out(rows) =~= rows[0].key + rows[0].val + laid_out(rows.drop_first()));
    } else {
        assert(rows.drop_last() =~= Seq::empty());
        assert(rows.drop_first() =~= Seq::empty());
        assert(laid_out(rows) =~= rows[0].key + rows[0].val + laid_out(rows.drop_first()));
    }
}

/// No encoding is a proper prefix of another, so where two encodings begin
/// the same bytes, the values are the same and so is what follows.
#[verifier::rlimit(60)]
proof fn lemma_prefix_free(
    a: CanonValue,
    da: int,
    ra: Seq<u8>,
    b: CanonValue,
    db: int,
    rb: Seq<u8>,
)
    requires
        refusal(a, da) is None,
        refusal(b, db) is None,
        encoding(a) + ra == encoding(b) + rb,
        encoding(a).len() + ra.len() <= u64::MAX,
    ensures
        same(a, b),
        encoding(a) == encoding(b),
        ra == rb,
    decreases a, 0int,
{
    lemma_major(a);
    lemma_major(b);
    let s = encoding(a) + ra;
    assert(s == encoding(b) + rb);
    assert(s[0] == encoding(a)[0]);
    assert(s[0] == encoding(b)[0]);
    assert(major_of(a) == major_of(b));
    match a {
        CanonValue::Int(n) => {
            let m = b->Int_0;
            if n >= 0 {
                lemma_head_injective(MAJOR_UINT, n as nat, ra, MAJOR_UINT, m as nat, rb);
            } else {
                lemma_head_injective(
                    MAJOR_NEGINT,
                    (-1 - n) as nat,
                    ra,
                    MAJOR_NEGINT,
                    (-1 - m) as nat,
                    rb,
                );
            }
            assert(n == m);
            assert(b == CanonValue::Int(n));
        },
        CanonValue::Bytes(x) => {
            let y = b->Bytes_0;
            lemma_split(head(MAJOR_BYTES, x@.len()), x@, ra);
            lemma_split(head(MAJOR_BYTES, y@.len()), y@, rb);
            lemma_head_injective(MAJOR_BYTES, x@.len(), x@ + ra, MAJOR_BYTES, y@.len(), y@ + rb);
            assert(x@ =~= (x@ + ra).take(x@.len() as int));
            assert(y@ =~= (y@ + rb).take(x@.len() as int));
            assert(ra =~= (x@ + ra).skip(x@.len() as int));
            assert(rb =~= (y@ + rb).skip(x@.len() as int));
        },
        CanonValue::Str(x) => {
            let y = b->Str_0;
            let p = encode_utf8(x@);
            let q = encode_utf8(y@);
            lemma_split(head(MAJOR_TEXT, p.len()), p, ra);
            lemma_split(head(MAJOR_TEXT, q.len()), q, rb);
            lemma_head_injective(MAJOR_TEXT, p.len(), p + ra, MAJOR_TEXT, q.len(), q + rb);
            assert(p =~= (p + ra).take(p.len() as int));
            assert(q =~= (q + rb).take(p.len() as int));
            assert(ra =~= (p + ra).skip(p.len() as int));
            assert(rb =~= (q + rb).skip(p.len() as int));
            vstd::utf8::encode_utf8_decode_utf8(x@);
            vstd::utf8::encode_utf8_decode_utf8(y@);
        },
        CanonValue::Array(x) => {
            lemma_arrays_prefix_free(x, da, ra, b->Array_0, db, rb);
        },
        CanonValue::Dict(x) => {
            lemma_maps_prefix_free(x, da, ra, b->Dict_0, db, rb);
        },
        _ => {
            assert(ra =~= s.skip(1));
            assert(rb =~= s.skip(1));
        },
    }
}

proof fn lemma_arrays_prefix_free(
    x: Vec<CanonValue>,
    da: int,
    ra: Seq<u8>,
    y: Vec<CanonValue>,
    db: int,
    rb: Seq<u8>,
)
    requires
        refusal(CanonValue::Array(x), da) is None,
        refusal(CanonValue::Array(y), db) is None,
        encoding(CanonValue::Array(x)) + ra == encoding(CanonValue::Array(y)) + rb,
        encoding(CanonValue::Array(x)).len() + ra.len() <= u64::MAX,
    ensures
        same(CanonValue::Array(x), CanonValue::Array(y)),
        encoding(CanonValue::Array(x)) == encoding(CanonValue::Array(y)),
        ra == rb,
    decreases x, 0int,
{
    lemma_split(head(MAJOR_ARRAY, x@.len()), encodings(x@), ra);
    lemma_split(head(MAJOR_ARRAY, y@.len()), encodings(y@), rb);
    assert(x.len() == x@.len() && y.len() == y@.len());
    lemma_head_injective(
        MAJOR_ARRAY,
        x@.len(),
        encodings(x@) + ra,
        MAJOR_ARRAY,
        y@.len(),
        encodings(y@) + rb,
    );
    lemma_items_accepted(x@, da + 1);
    lemma_items_accepted(y@, db + 1);
    lemma_items_prefix_free(x@, da + 1, ra, y@, db + 1, rb);
}

proof fn lemma_maps_prefix_free(
    x: Vec<(CanonValue, CanonValue)>,
    da: int,
    ra: Seq<u8>,
    y: Vec<(CanonValue, CanonValue)>,
    db: int,
    rb: Seq<u8>,
)
    requires
        refusal(CanonValue::Dict(x), da) is None,
        refusal(CanonValue::Dict(y), db) is None,
        encoding(CanonValue::Dict(x)) + ra == encoding(CanonValue::Dict(y)) + rb,
        encoding(CanonValue::Dict(x)).len() + ra.len() <= u64::MAX,
    ensures
        same(CanonValue::Dict(x), CanonValue::Dict(y)),
        encoding(CanonValue::Dict(x)) == encoding(CanonValue::Dict(y)),
        ra == rb,
    decreases x, 0int,
{
    let rx = rows_of(x@, da + 1);
    let ry = rows_of(y@, db + 1);
    lemma_depth_free(x@, da + 1, 0);
    lemma_layout_free(rx, rows_of(x@, 0));
    lemma_depth_free(y@, db + 1, 0);
    lemma_layout_free(ry, rows_of(y@, 0));
    let lx = laid_out(ordered(rx));
    let ly = laid_out(ordered(ry));
    lemma_split(head(MAJOR_MAP, x@.len()), lx, ra);
    lemma_split(head(MAJOR_MAP, y@.len()), ly, rb);
    assert(x.len() == x@.len() && y.len() == y@.len());
    lemma_head_injective(MAJOR_MAP, x@.len(), lx + ra, MAJOR_MAP, y@.len(), ly + rb);
    lemma_entries_accepted(x, da);
    lemma_entries_accepted(y, db);
    lemma_rows(x@, da + 1);
    lemma_rows(y@, db + 1);
    lemma_ordered(rx);
    lemma_ordered(ry);
    lemma_rows_prefix_free(x@, da + 1, ordered(rx), ra, y@, db + 1, ordered(ry), rb);
    lemma_matching_entries(x@, da + 1, ordered(rx), y@, db + 1, ordered(ry));
    lemma_matching_back(x@, da + 1, ordered(rx), y@, db + 1, ordered(ry));
}

proof fn lemma_split(h: Seq<u8>, m: Seq<u8>, r: Seq<u8>)
    ensures
        h + m + r == h + (m + r),
{
    assert(h + m + r =~= h + (m + r));
}

proof fn lemma_items_prefix_free(
    xs: Seq<CanonValue>,
    da: int,
    ra: Seq<u8>,
    ys: Seq<CanonValue>,
    db: int,
    rb: Seq<u8>,
)
    requires
        xs.len() == ys.len(),
        forall|i: int| 0 <= i < xs.len() ==> refusal(#[trigger] xs[i], da) is None,
        forall|i: int| 0 <= i < ys.len() ==> refusal(#[trigger] ys[i], db) is None,
        encodings(xs) + ra == encodings(ys) + rb,
        encodings(xs).len() + ra.len() <= u64::MAX,
    ensures
        forall|i: int| 0 <= i < xs.len() ==> same(#[trigger] xs[i], ys[i]),
        encodings(xs) == encodings(ys),
        ra == rb,
    decreases xs, 0int,
{
    if xs.len() == 0 {
        assert(encodings(xs) + ra =~= ra);
        assert(encodings(ys) + rb =~= rb);
    } else {
        lemma_encodings_front(xs);
        lemma_encodings_front(ys);
        let x1 = xs.drop_first();
        let y1 = ys.drop_first();
        lemma_split(encoding(xs[0]), encodings(x1), ra);
        lemma_split(encoding(ys[0]), encodings(y1), rb);
        lemma_prefix_free(xs[0], da, encodings(x1) + ra, ys[0], db, encodings(y1) + rb);
        assert forall|i: int| 0 <= i < x1.len() implies refusal(#[trigger] x1[i], da) is None by {
            assert(x1[i] == xs[i + 1]);
        }
        assert forall|i: int| 0 <= i < y1.len() implies refusal(#[trigger] y1[i], db) is None by {
            assert(y1[i] == ys[i + 1]);
        }
        lemma_items_prefix_free(x1, da, ra, y1, db, rb);
        assert forall|i: int| 0 <= i < xs.len() implies same(#[trigger] xs[i], ys[i]) by {
            if i > 0 {
                assert(same(x1[i - 1], y1[i - 1]));
            }
        }
    }
}

/// That two rows stand for entries with the same key and the same value.
#[verifier::opaque]
spec fn agree(
    xs: Seq<(CanonValue, CanonValue)>,
    da: int,
    r: Row,
    ys: Seq<(CanonValue, CanonValue)>,
    db: int,
    s: Row,
) -> bool {
    forall|i: int, j: int|
        #![trigger rows_of(xs, da)[i], rows_of(ys, db)[j]]
        0 <= i < xs.len() && 0 <= j < ys.len() && rows_of(xs, da)[i] == r && rows_of(ys, db)[j] == s
            ==> same(xs[i].0, ys[j].0) && same(xs[i].1, ys[j].1)
}

proof fn lemma_first_row(r: Seq<Row>, ra: Seq<u8>)
    requires
        r.len() > 0,
    ensures
        laid_out(r) + ra == r[0].key + (r[0].val + (laid_out(r.drop_first()) + ra)),
        laid_out(r) == r[0].key + r[0].val + laid_out(r.drop_first()),
        laid_out(r).len() == r[0].key.len() + r[0].val.len() + laid_out(r.drop_first()).len(),
{
    lemma_laid_out_front(r);
    assert(laid_out(r) + ra =~= r[0].key + (r[0].val + (laid_out(r.drop_first()) + ra)));
}

proof fn lemma_row_pair(
    xs: Seq<(CanonValue, CanonValue)>,
    da: int,
    r: Row,
    ra: Seq<u8>,
    ys: Seq<(CanonValue, CanonValue)>,
    db: int,
    t: Row,
    rb: Seq<u8>,
)
    requires
        rows_of(xs, da).contains(r),
        rows_of(ys, db).contains(t),
        forall|i: int| 0 <= i < xs.len() ==> refusal(#[trigger] xs[i].0, da) is None,
        forall|i: int| 0 <= i < xs.len() ==> refusal(#[trigger] xs[i].1, da) is None,
        forall|i: int| 0 <= i < ys.len() ==> refusal(#[trigger] ys[i].0, db) is None,
        forall|i: int| 0 <= i < ys.len() ==> refusal(#[trigger] ys[i].1, db) is None,
        r.key + (r.val + ra) == t.key + (t.val + rb),
        r.key.len() + r.val.len() + ra.len() <= u64::MAX,
    ensures
        agree(xs, da, r, ys, db, t),
        r.key == t.key,
        r.val == t.val,
        ra == rb,
    decreases xs, 1int,
{
    lemma_rows(xs, da);
    lemma_rows(ys, db);
    let i0 = choose|i: int| 0 <= i < xs.len() && rows_of(xs, da)[i] == r;
    let j0 = choose|j: int| 0 <= j < ys.len() && rows_of(ys, db)[j] == t;
    lemma_pair(xs, da, i0, ra, ys, db, j0, rb);
    reveal(agree);
    assert forall|i: int, j: int|
        #![trigger rows_of(xs, da)[i], rows_of(ys, db)[j]]
        0 <= i < xs.len() && 0 <= j < ys.len() && rows_of(xs, da)[i] == r && rows_of(ys, db)[j]
            == t implies same(xs[i].0, ys[j].0) && same(xs[i].1, ys[j].1) by {
        lemma_pair(xs, da, i, ra, ys, db, j, rb);
    }
}

proof fn lemma_rows_prefix_free(
    xs: Seq<(CanonValue, CanonValue)>,
    da: int,
    r: Seq<Row>,
    ra: Seq<u8>,
    ys: Seq<(CanonValue, CanonValue)>,
    db: int,
    t: Seq<Row>,
    rb: Seq<u8>,
)
    requires
        r.len() == t.len(),
        forall|p: int| 0 <= p < r.len() ==> rows_of(xs, da).contains(#[trigger] r[p]),
        forall|p: int| 0 <= p < t.len() ==> rows_of(ys, db).contains(#[trigger] t[p]),
        forall|i: int| 0 <= i < xs.len() ==> refusal(#[trigger] xs[i].0, da) is None,
        forall|i: int| 0 <= i < xs.len() ==> refusal(#[trigger] xs[i].1, da) is None,
        forall|i: int| 0 <= i < ys.len() ==> refusal(#[trigger] ys[i].0, db) is None,
        forall|i: int| 0 <= i < ys.len() ==> refusal(#[trigger] ys[i].1, db) is None,
        laid_out(r) + ra == laid_out(t) + rb,
        laid_out(r).len() + ra.len() <= u64::MAX,
    ensures
        forall|p: int| 0 <= p < r.len() ==> agree(xs, da, #[trigger] r[p], ys, db, t[p]),
        laid_out(r) == laid_out(t),
        ra == rb,
    decreases xs, r.len() + 2,
{
    if r.len() == 0 {
        assert(laid_out(r) + ra =~= ra);
        assert(laid_out(t) + rb =~= rb);
    } else {
        let r1 = r.drop_first();
        let t1 = t.drop_first();
        lemma_first_row(r, ra);
        lemma_first_row(t, rb);
        assert(rows_of(xs, da).contains(r[0]));
        assert(rows_of(ys, db).contains(t[0]));
        lemma_row_pair(xs, da, r[0], laid_out(r1) + ra, ys, db, t[0], laid_out(t1) + rb);
        assert forall|p: int| 0 <= p < r1.len() implies rows_of(xs, da).contains(#[trigger] r1[p]) by {
            assert(r1[p] == r[p + 1]);
        }
        assert forall|p: int| 0 <= p < t1.len() implies rows_of(ys, db).contains(#[trigger] t1[p]) by {
            assert(t1[p] == t[p + 1]);
        }
        lemma_rows_prefix_free(xs, da, r1, ra, ys, db, t1, rb);
        assert forall|p: int| 0 <= p < r.len() implies agree(xs, da, #[trigger] r[p], ys, db, t[p]) by {
            if p > 0 {
                assert(r[p] == r1[p - 1]);
                assert(t[p] == t1[p - 1]);
            }
        }
    }
}

proof fn lemma_pair(
    xs: Seq<(CanonValue, CanonValue)>,
    da: int,
    i: int,
    ra: Seq<u8>,
    ys: Seq<(CanonValue, CanonValue)>,
    db: int,
    j: int,
    rb: Seq<u8>,
)
    requires
        0 <= i < xs.len(),
        0 <= j < ys.len(),
        refusal(xs[i].0, da) is None,
        refusal(xs[i].1, da) is None,
        refusal(ys[j].0, db) is None,
        refusal(ys[j].1, db) is None,
        encoding(xs[i].0) + (encoding(xs[i].1) + ra) == encoding(ys[j].0) + (encoding(ys[j].1)
            + rb),
        encoding(xs[i].0).len() + encoding(xs[i].1).len() + ra.len() <= u64::MAX,
    ensures
        same(xs[i].0, ys[j].0),
        same(xs[i].1, ys[j].1),
        encoding(xs[i].0) == encoding(ys[j].0),
        encoding(xs[i].1) == encoding(ys[j].1),
        ra == rb,
    decreases xs, 0int,
{
    assert(decreases_to!(xs => xs[i]));
    assert(decreases_to!(xs => xs[i].0));
    assert(decreases_to!(xs => xs[i].1));
    lemma_prefix_free(
        xs[i].0,
        da,
        encoding(xs[i].1) + ra,
        ys[j].0,
        db,
        encoding(ys[j].1) + rb,
    );
    lemma_prefix_free(xs[i].1, da, ra, ys[j].1, db, rb);
}

proof fn lemma_matching_entries(
    xs: Seq<(CanonValue, CanonValue)>,
    da: int,
    r: Seq<Row>,
    ys: Seq<(CanonValue, CanonValue)>,
    db: int,
    t: Seq<Row>,
)
    requires
        r.len() == xs.len(),
        t.len() == ys.len(),
        r.len() == t.len(),
        forall|i: int| 0 <= i < xs.len() ==> r.contains(#[trigger] rows_of(xs, da)[i]),
        forall|p: int| 0 <= p < t.len() ==> rows_of(ys, db).contains(#[trigger] t[p]),
        forall|p: int| 0 <= p < r.len() ==> agree(xs, da, #[trigger] r[p], ys, db, t[p]),
    ensures
        forall|i: int| 0 <= i < xs.len() ==> has_entry(#[trigger] xs[i], ys),
{
    lemma_rows(xs, da);
    lemma_rows(ys, db);
    assert forall|i: int| 0 <= i < xs.len() implies has_entry(#[trigger] xs[i], ys) by {
        assert(r.contains(rows_of(xs, da)[i]));
        let p = choose|p: int| 0 <= p < r.len() && r[p] == rows_of(xs, da)[i];
        assert(rows_of(ys, db).contains(t[p]));
        let j = choose|j: int| 0 <= j < ys.len() && rows_of(ys, db)[j] == t[p];
        assert(agree(xs, da, r[p], ys, db, t[p]));
        reveal(agree);
        assert(same(xs[i].0, ys[j].0));
    }
}

proof fn lemma_matching_back(
    xs: Seq<(CanonValue, CanonValue)>,
    da: int,
    r: Seq<Row>,
    ys: Seq<(CanonValue, CanonValue)>,
    db: int,
    t: Seq<Row>,
)
    requires
        r.len() == xs.len(),
        t.len() == ys.len(),
        r.len() == t.len(),
        forall|i: int| 0 <= i < ys.len() ==> t.contains(#[trigger] rows_of(ys, db)[i]),
        forall|p: int| 0 <= p < r.len() ==> rows_of(xs, da).contains(#[trigger] r[p]),
        forall|p: int| 0 <= p < r.len() ==> agree(xs, da, #[trigger] r[p], ys, db, t[p]),
    ensures
        forall|j: int| 0 <= j < ys.len() ==> entry_of(xs, #[trigger] ys[j]),
{
    lemma_rows(xs, da);
    lemma_rows(ys, db);
    assert forall|j: int| 0 <= j < ys.len() implies entry_of(xs, #[trigger] ys[j]) by {
        assert(t.contains(rows_of(ys, db)[j]));
        let p = choose|p: int| 0 <= p < t.len() && t[p] == rows_of(ys, db)[j];
        assert(rows_of(xs, da).contains(r[p]));
        let i = choose|i: int| 0 <= i < xs.len() && rows_of(xs, da)[i] == r[p];
        assert(agree(xs, da, r[p], ys, db, t[p]));
        reveal(agree);
        assert(same(xs[i].0, ys[j].0));
    }
}

/// Distinct values have distinct encodings: two accepted values whose bytes
/// are equal are the same value, up to the order of map entries.
pub proof fn law_encoding_is_injective(a: CanonValue, b: CanonValue)
    requires
        refusal(a, 0) is None,
        refusal(b, 0) is None,
        encoding(a) == encoding(b),
        encoding(a).len() <= usize::MAX,
    ensures
        same(a, b),
{
    let e = Seq::<u8>::empty();
    assert(encoding(a) + e =~= encoding(a));
    assert(encoding(b) + e =~= encoding(b));
    lemma_prefix_free(a, 0, e, b, 0, e);
}

/// An encoding never starts another one: bytes that begin with the encodings
/// of two accepted values begin with one value's encoding only.
pub proof fn law_encoding_is_prefix_free(a: CanonValue, ra: Seq<u8>, b: CanonValue, rb: Seq<u8>)
    requires
        refusal(a, 0) is None,
        refusal(b, 0) is None,
        encoding(a) + ra == encoding(b) + rb,
        encoding(a).len() + ra.len() <= usize::MAX,
    ensures
        same(a, b),
        ra == rb,
{
    lemma_prefix_free(a, 0, ra, b, 0, rb);
}

/// Some row of `t` has this key and this value.
#[verifier::opaque]
spec fn listed(r: Row, t: Seq<Row>) -> bool {
    exists|q: int| #![trigger t[q]] 0 <= q < t.len() && t[q].key == r.key && t[q].val == r.val
}

proof fn lemma_listed_at(r: Row, t: Seq<Row>, q: int)
    requires
        0 <= q < t.len(),
        t[q].key == r.key,
        t[q].val == r.val,
    ensures
        listed(r, t),
{
    reveal(listed);
    assert(t[q].key == r.key);
}

/// Where a listed row lies.
proof fn lemma_row_listed(r: Row, t: Seq<Row>) -> (q: int)
    requires
        listed(r, t),
    ensures
        0 <= q < t.len(),
        t[q].key == r.key,
        t[q].val == r.val,
{
    reveal(listed);
    choose|q: int| #![trigger t[q]] 0 <= q < t.len() && t[q].key == r.key && t[q].val == r.val
}

/// Strictly ordered rows are fixed by what they hold.
proof fn lemma_same_rows(r: Seq<Row>, t: Seq<Row>, p: int)
    requires
        r.len() == t.len(),
        strictly_in_order(r),
        strictly_in_order(t),
        forall|i: int| 0 <= i < r.len() ==> listed(#[trigger] r[i], t),
        forall|i: int| 0 <= i < t.len() ==> listed(#[trigger] t[i], r),
        0 <= p <= r.len(),
    ensures
        forall|i: int| 0 <= i < p ==> (#[trigger] r[i]).key == t[i].key && r[i].val == t[i].val,
    decreases p,
{
    if p > 0 {
        let k = p - 1;
        lemma_same_rows(r, t, k);
        assert(listed(r[k], t));
        assert(listed(t[k], r));
        let q = lemma_row_listed(r[k], t);
        let w = lemma_row_listed(t[k], r);
        if q < k {
            assert(r[q].key == t[q].key);
            assert(before(r[q].key, r[k].key));
            lemma_before_asym(r[k].key, r[k].key, 0);
        }
        if w < k {
            assert(r[w].key == t[w].key);
            assert(before(t[w].key, t[k].key));
            lemma_before_asym(t[k].key, t[k].key, 0);
        }
        if q > k && w > k {
            assert(before(t[k].key, t[q].key));
            assert(before(r[k].key, r[w].key));
            lemma_before_asym(t[k].key, r[k].key, 0);
        }
    }
}

proof fn lemma_same_encodings(xs: Seq<CanonValue>, ys: Seq<CanonValue>)
    requires
        xs.len() == ys.len(),
        forall|i: int| 0 <= i < xs.len() ==> encoding(#[trigger] xs[i]) == encoding(ys[i]),
    ensures
        encodings(xs) == encodings(ys),
    decreases xs.len(),
{
    if xs.len() > 0 {
        assert(encoding(xs[xs.len() - 1]) == encoding(ys[xs.len() - 1]));
        assert forall|i: int| 0 <= i < xs.len() - 1 implies encoding(#[trigger] xs.drop_last()[i])
            == encoding(ys.drop_last()[i]) by {
            assert(encoding(xs[i]) == encoding(ys[i]));
        }
        lemma_same_encodings(xs.drop_last(), ys.drop_last());
    }
}

proof fn lemma_same_encode(a: CanonValue, da: int, b: CanonValue, db: int)
    requires
        refusal(a, da) is None,
        refusal(b, db) is None,
        same(a, b),
    ensures
        encoding(a) == encoding(b),
    decreases a, 0int,
{
    match (a, b) {
        (CanonValue::Array(x), CanonValue::Array(y)) => {
            lemma_items_accepted(x@, da + 1);
            lemma_items_accepted(y@, db + 1);
            assert forall|i: int| 0 <= i < x@.len() implies encoding(#[trigger] x@[i]) == encoding(
                y@[i],
            ) by {
                lemma_same_encode(x@[i], da + 1, y@[i], db + 1);
            }
            lemma_same_encodings(x@, y@);
        },
        (CanonValue::Dict(x), CanonValue::Dict(y)) => {
            lemma_same_maps_encode(x, da, y, db);
        },
        _ => {},
    }
}

proof fn lemma_entry_listed(
    x: Vec<(CanonValue, CanonValue)>,
    da: int,
    y: Vec<(CanonValue, CanonValue)>,
    db: int,
    i: int,
)
    requires
        refusal(CanonValue::Dict(x), da) is None,
        refusal(CanonValue::Dict(y), db) is None,
        same(CanonValue::Dict(x), CanonValue::Dict(y)),
        0 <= i < x@.len(),
    ensures
        exists|j: int|
            #![trigger y@[j]]
            0 <= j < y@.len() && encoding(x@[i].0) == encoding(y@[j].0) && encoding(x@[i].1)
                == encoding(y@[j].1),
    decreases x, 0int,
{
    lemma_entries_accepted(x, da);
    lemma_entries_accepted(y, db);
    assert(has_entry(x@[i], y@));
    let j = choose|j: int|
        #![trigger y@[j]]
        0 <= j < y@.len() && same(x@[i].0, y@[j].0) && same(x@[i].1, y@[j].1);
    assert(refusal(x@[i].0, da + 1) is None && refusal(x@[i].1, da + 1) is None);
    assert(refusal(y@[j].0, db + 1) is None && refusal(y@[j].1, db + 1) is None);
    lemma_same_encode(x@[i].0, da + 1, y@[j].0, db + 1);
    lemma_same_encode(x@[i].1, da + 1, y@[j].1, db + 1);
}

proof fn lemma_entry_listed_back(
    x: Vec<(CanonValue, CanonValue)>,
    da: int,
    y: Vec<(CanonValue, CanonValue)>,
    db: int,
    j: int,
)
    requires
        refusal(CanonValue::Dict(x), da) is None,
        refusal(CanonValue::Dict(y), db) is None,
        same(CanonValue::Dict(x), CanonValue::Dict(y)),
        0 <= j < y@.len(),
    ensures
        exists|i: int|
            #![trigger x@[i]]
            0 <= i < x@.len() && encoding(x@[i].0) == encoding(y@[j].0) && encoding(x@[i].1)
                == encoding(y@[j].1),
    decreases x, 0int,
{
    lemma_entries_accepted(x, da);
    lemma_entries_accepted(y, db);
    assert(entry_of(x@, y@[j]));
    let i = choose|i: int|
        #![trigger x@[i]]
        0 <= i < x@.len() && same(x@[i].0, y@[j].0) && same(x@[i].1, y@[j].1);
    assert(refusal(x@[i].0, da + 1) is None && refusal(x@[i].1, da + 1) is None);
    assert(refusal(y@[j].0, db + 1) is None && refusal(y@[j].1, db + 1) is None);
    lemma_same_encode(x@[i].0, da + 1, y@[j].0, db + 1);
    lemma_same_encode(x@[i].1, da + 1, y@[j].1, db + 1);
}

#[verifier::spinoff_prover]
proof fn lemma_listed(
    xs: Seq<(CanonValue, CanonValue)>,
    da: int,
    ys: Seq<(CanonValue, CanonValue)>,
    db: int,
)
    requires
        forall|i: int|
            #![trigger xs[i]]
            0 <= i < xs.len() ==> exists|j: int|
                #![trigger ys[j]]
                0 <= j < ys.len() && encoding(xs[i].0) == encoding(ys[j].0) && encoding(xs[i].1)
                    == encoding(ys[j].1),
    ensures
        forall|p: int|
            0 <= p < xs.len() ==> listed(
                #[trigger] ordered(rows_of(xs, da))[p],
                ordered(rows_of(ys, db)),
            ),
{
    let rx = rows_of(xs, da);
    let ry = rows_of(ys, db);
    let r = ordered(rx);
    let t = ordered(ry);
    lemma_rows(xs, da);
    lemma_rows(ys, db);
    lemma_ordered(rx);
    lemma_ordered(ry);
    assert forall|p: int| 0 <= p < r.len() implies listed(#[trigger] r[p], t) by {
        assert(rx.contains(r[p]));
        let i = choose|i: int| 0 <= i < rx.len() && rx[i] == r[p];
        assert(rx[i].key == encoding(xs[i].0));
        let j = choose|j: int|
            #![trigger ys[j]]
            0 <= j < ys.len() && encoding(xs[i].0) == encoding(ys[j].0) && encoding(xs[i].1)
                == encoding(ys[j].1);
        assert(t.contains(ry[j]));
        let q = choose|q: int| 0 <= q < t.len() && t[q] == ry[j];
        assert(t[q].key == r[p].key);
        lemma_listed_at(r[p], t, q);
    }
}

proof fn lemma_alike_maps_encode(
    x: Vec<(CanonValue, CanonValue)>,
    da: int,
    y: Vec<(CanonValue, CanonValue)>,
    db: int,
)
    requires
        x@.len() == y@.len(),
        alike(ordered(rows_of(x@, da)), ordered(rows_of(y@, db))),
    ensures
        encoding(CanonValue::Dict(x)) == encoding(CanonValue::Dict(y)),
{
    lemma_laid_out_alike(ordered(rows_of(x@, da)), ordered(rows_of(y@, db)));
    lemma_depth_free(x@, da, 0);
    lemma_layout_free(rows_of(x@, da), rows_of(x@, 0));
    lemma_depth_free(y@, db, 0);
    lemma_layout_free(rows_of(y@, db), rows_of(y@, 0));
}

proof fn lemma_rows_agree(r: Seq<Row>, t: Seq<Row>)
    requires
        r.len() == t.len(),
        strictly_in_order(r),
        strictly_in_order(t),
        forall|i: int| 0 <= i < r.len() ==> listed(#[trigger] r[i], t),
        forall|i: int| 0 <= i < t.len() ==> listed(#[trigger] t[i], r),
    ensures
        alike(r, t),
{
    lemma_same_rows(r, t, r.len() as int);
}

#[verifier::spinoff_prover]
#[verifier::rlimit(80)]
proof fn lemma_same_maps_encode(
    x: Vec<(CanonValue, CanonValue)>,
    da: int,
    y: Vec<(CanonValue, CanonValue)>,
    db: int,
)
    requires
        refusal(CanonValue::Dict(x), da) is None,
        refusal(CanonValue::Dict(y), db) is None,
        same(CanonValue::Dict(x), CanonValue::Dict(y)),
    ensures
        encoding(CanonValue::Dict(x)) == encoding(CanonValue::Dict(y)),
    decreases x, 1int,
{
    let rx = rows_of(x@, da + 1);
    let ry = rows_of(y@, db + 1);
    let r = ordered(rx);
    let t = ordered(ry);
    assert(strictly_in_order(r) && strictly_in_order(t)) by {
        lemma_entries_accepted(x, da);
        lemma_entries_accepted(y, db);
    }
    assert(r.len() == x@.len() && t.len() == y@.len()) by {
        lemma_rows(x@, da + 1);
        lemma_rows(y@, db + 1);
        lemma_ordered(rx);
        lemma_ordered(ry);
    }
    assert(forall|p: int| 0 <= p < r.len() ==> listed(#[trigger] r[p], t)) by {
        assert forall|i: int| #![trigger x@[i]] 0 <= i < x@.len() implies exists|j: int|
            #![trigger y@[j]]
            0 <= j < y@.len() && encoding(x@[i].0) == encoding(y@[j].0) && encoding(x@[i].1)
                == encoding(y@[j].1) by {
            lemma_entry_listed(x, da, y, db, i);
        }
        lemma_listed(x@, da + 1, y@, db + 1);
    }
    assert(forall|p: int| 0 <= p < t.len() ==> listed(#[trigger] t[p], r)) by {
        assert forall|j: int| #![trigger y@[j]] 0 <= j < y@.len() implies exists|i: int|
            #![trigger x@[i]]
            0 <= i < x@.len() && encoding(y@[j].0) == encoding(x@[i].0) && encoding(y@[j].1)
                == encoding(x@[i].1) by {
            lemma_entry_listed_back(x, da, y, db, j);
        }
        lemma_listed(y@, db + 1, x@, da + 1);
    }
    lemma_rows_agree(r, t);
    lemma_alike_maps_encode(x, da + 1, y, db + 1);
}

/// The same value always encodes the same, however its maps were put
/// together: construction order is never observable.
pub proof fn law_same_values_encode_the_same(a: CanonValue, b: CanonValue)
    requires
        refusal(a, 0) is None,
        refusal(b, 0) is None,
        same(a, b),
    ensures
        encoding(a) == encoding(b),
{
    lemma_same_encode(a, 0, b, 0);
}

// -- construction ------------------------------------------------------------

impl CanonValue {
    /// Build a map from string keys, the shape almost every request has.
    pub fn map(entries: Vec<(String, CanonValue)>) -> (r: Self)
        ensures
            r is Dict,
            r->Dict_0@.len() == entries@.len(),
            forall|i: int|
                0 <= i < entries@.len() ==> (#[trigger] r->Dict_0@[i]).0 == CanonValue::Str(
                    entries@[i].0,
                ) && r->Dict_0@[i].1 == entries@[i].1,
    {
        let mut out: Vec<(CanonValue, CanonValue)> = Vec::new();
        for entry in it: entries
            invariant
                out@.len() == it.index(),
                it.seq() == entries@,
                forall|i: int|
                    0 <= i < out@.len() ==> (#[trigger] out@[i]).0 == CanonValue::Str(
                        entries@[i].0,
                    ) && out@[i].1 == entries@[i].1,
        {
            let (key, value) = entry;
            out.push((CanonValue::Str(key), value));
        }
        CanonValue::Dict(out)
    }

    /// Build an array.
    pub fn array(items: Vec<CanonValue>) -> (r: Self)
        ensures
            r == CanonValue::Array(items),
    {
        CanonValue::Array(items)
    }

    /// Build a string.
    pub fn str(text: &str) -> (r: Self)
        ensures
            r is Str,
            r->Str_0@ == text@,
    {
        CanonValue::Str(text.to_owned())
    }

    /// Build an integer.
    pub fn integer(value: i128) -> (r: Self)
        ensures
            r == CanonValue::Int(value),
    {
        CanonValue::Int(value)
    }
}

impl CanonError {
    /// The message a reader sees.
    pub fn message(&self) -> (r: String)
        ensures
            r@ == refusal_text(self@),
    {
        let mut out: Vec<char> = Vec::new();
        match self {
            CanonError::IntOutOfRange { value } => {
                append_str(&mut out, "integer ");
                append_int(&mut out, *value);
                append_str(&mut out, " is outside the CBOR range -2^64 ..= 2^64-1");
            },
            CanonError::DuplicateKey { key_hex } => {
                append_str(&mut out, "duplicate map key, encoded as ");
                append_str(&mut out, key_hex.as_str());
            },
            CanonError::TooDeep { limit } => {
                append_str(&mut out, "value nests deeper than ");
                append_int(&mut out, *limit as i128);
                append_str(&mut out, " levels");
            },
        }
        let r = string_of(&out);
        assert(r@ == refusal_text(self@));
        r
    }
}

/// The message for each refusal.
pub open spec fn refusal_text(e: Refusal) -> Seq<char> {
    match e {
        Refusal::IntOutOfRange { value } => "integer "@ + int_text(value)
            + " is outside the CBOR range -2^64 ..= 2^64-1"@,
        Refusal::DuplicateKey { key_hex } => "duplicate map key, encoded as "@ + key_hex,
        Refusal::TooDeep { limit } => "value nests deeper than "@ + int_text(limit) + " levels"@,
    }
}

} // verus!
