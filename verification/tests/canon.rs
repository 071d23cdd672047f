//! The canonical encoding.
use ix::canon::{encode, write_value, CanonError, CanonValue, MAX_DEPTH};

fn hex(bytes: &[u8]) -> String {
    bytes.iter().map(|b| format!("{b:02x}")).collect()
}

#[test]
fn scalars_match_rfc_8949_examples() -> Result<(), CanonError> {
    assert_eq!(hex(&encode(&CanonValue::Null)?), "f6");
    assert_eq!(hex(&encode(&CanonValue::Bool(false))?), "f4");
    assert_eq!(hex(&encode(&CanonValue::Bool(true))?), "f5");
    assert_eq!(hex(&encode(&CanonValue::Int(0))?), "00");
    assert_eq!(hex(&encode(&CanonValue::Int(23))?), "17");
    assert_eq!(hex(&encode(&CanonValue::Int(24))?), "1818");
    assert_eq!(hex(&encode(&CanonValue::Int(1000))?), "1903e8");
    assert_eq!(hex(&encode(&CanonValue::Int(-1))?), "20");
    assert_eq!(hex(&encode(&CanonValue::Int(-500))?), "3901f3");
    assert_eq!(hex(&encode(&CanonValue::str("a"))?), "6161");
    assert_eq!(hex(&encode(&CanonValue::Bytes(vec![1, 2]))?), "420102");
    Ok(())
}

#[test]
fn integers_use_the_shortest_width() -> Result<(), CanonError> {
    // One byte of head per step up, and no wasted width in between.
    for (value, len) in [(23i128, 1), (24, 2), (0xff, 2), (0x100, 3), (0x1_0000, 5)] {
        assert_eq!(encode(&CanonValue::Int(value))?.len(), len, "value {value}");
    }
    Ok(())
}

#[test]
fn integer_range_is_the_full_cbor_line() {
    let top = i128::from(u64::MAX);
    assert!(encode(&CanonValue::Int(top)).is_ok());
    assert!(encode(&CanonValue::Int(-1 - top)).is_ok());
    assert_eq!(
        encode(&CanonValue::Int(top + 1)),
        Err(CanonError::IntOutOfRange { value: top + 1 })
    );
}

#[test]
fn map_order_does_not_depend_on_construction_order() -> Result<(), CanonError> {
    let one = CanonValue::map(vec![("b".to_owned(), CanonValue::Int(2)), ("a".to_owned(), CanonValue::Int(1))]);
    let other = CanonValue::map(vec![("a".to_owned(), CanonValue::Int(1)), ("b".to_owned(), CanonValue::Int(2))]);
    assert_eq!(encode(&one)?, encode(&other)?);
    assert_eq!(hex(&encode(&one)?), "a2616101616202");
    Ok(())
}

/// Bytewise order over encoded keys, not lexicographic order over the
/// decoded strings: "z" sorts before "aa" because its encoding is shorter
/// and CBOR heads make length the leading byte.
#[test]
fn short_keys_sort_before_long_ones() -> Result<(), CanonError> {
    let encoded = encode(&CanonValue::map(vec![
        ("aa".to_owned(), CanonValue::Null),
        ("z".to_owned(), CanonValue::Null),
    ]))?;
    assert_eq!(hex(&encoded), "a2617af6626161f6");
    Ok(())
}

#[test]
fn duplicate_keys_are_refused() {
    let value = CanonValue::map(vec![("a".to_owned(), CanonValue::Int(1)), ("a".to_owned(), CanonValue::Int(2))]);
    assert!(matches!(
        encode(&value),
        Err(CanonError::DuplicateKey { .. })
    ));
}

/// The property the memo table depends on. Distinct values that a sloppier
/// encoder would confuse must stay distinct here.
#[test]
fn structurally_distinct_values_do_not_collide() -> Result<(), CanonError> {
    let candidates = [
        CanonValue::Null,
        CanonValue::Bool(false),
        CanonValue::Int(0),
        CanonValue::Bytes(vec![0x61]),
        CanonValue::str("a"),
        CanonValue::array(vec![CanonValue::str("a")]),
        CanonValue::map(vec![("a".to_owned(), CanonValue::Null)]),
        CanonValue::array(vec![CanonValue::str("ab")]),
        CanonValue::array(vec![CanonValue::str("a"), CanonValue::str("b")]),
    ];
    let mut seen: std::collections::BTreeSet<Vec<u8>> = std::collections::BTreeSet::new();
    for candidate in &candidates {
        assert!(seen.insert(encode(candidate)?), "collision on {candidate:?}");
    }
    Ok(())
}

#[test]
fn depth_is_capped() {
    let mut value = CanonValue::Null;
    for _ in 0..=MAX_DEPTH {
        value = CanonValue::array(vec![value]);
    }
    assert_eq!(encode(&value), Err(CanonError::TooDeep { limit: MAX_DEPTH }));
}

#[test]
fn refusals_are_worded() {
    let value = CanonValue::array(vec![CanonValue::Int(1 << 100)]);
    assert_eq!(
        encode(&value).map_err(|e| e.message()),
        Err("integer 1267650600228229401496703205376 is outside the CBOR range -2^64 ..= 2^64-1"
            .to_owned())
    );
    let twice = CanonValue::map(vec![
        ("a".to_owned(), CanonValue::Null),
        ("a".to_owned(), CanonValue::Null),
    ]);
    assert_eq!(
        encode(&twice).map_err(|e| e.message()),
        Err("duplicate map key, encoded as 6161".to_owned())
    );
    assert_eq!(
        CanonError::TooDeep { limit: 3 }.message(),
        "value nests deeper than 3 levels"
    );
}

/// No encoding begins another, so encodings in a row can be told apart.
#[test]
fn no_encoding_begins_another() -> Result<(), CanonError> {
    let values = [
        CanonValue::Null,
        CanonValue::integer(0),
        CanonValue::integer(1000),
        CanonValue::integer(-1),
        CanonValue::str(""),
        CanonValue::str("a"),
        CanonValue::array(vec![]),
        CanonValue::array(vec![CanonValue::Null, CanonValue::Null]),
        CanonValue::map(vec![]),
        CanonValue::map(vec![("a".to_owned(), CanonValue::Null)]),
    ];
    for a in &values {
        for b in &values {
            assert_eq!(encode(b)?.starts_with(&encode(a)?), a == b);
        }
    }
    Ok(())
}

/// What a value encodes to does not depend on what it stands in.
#[test]
fn an_encoding_takes_no_depth() -> Result<(), CanonError> {
    let inner = || CanonValue::Dict(vec![(CanonValue::Int(1), CanonValue::Null)]);
    let mut deep = inner();
    for _ in 0..40 {
        deep = CanonValue::Array(vec![deep]);
    }
    assert_eq!(hex(&encode(&deep)?), "81".repeat(40) + &hex(&encode(&inner())?));
    Ok(())
}

/// Of several repeated keys the least is reported, whatever the values are.
#[test]
fn the_least_duplicate_is_reported() {
    let entry = |key: i128| (CanonValue::Int(key), CanonValue::Int(1 << 100));
    let twice = CanonValue::Dict(vec![entry(9), entry(4), entry(9), entry(4)]);
    assert_eq!(
        encode(&twice),
        Err(CanonError::DuplicateKey { key_hex: "04".to_owned() }),
    );
}

/// Writing adds the encoding to what is there, at whatever depth.
#[test]
fn writing_only_appends() -> Result<(), CanonError> {
    let value = CanonValue::Array(vec![CanonValue::Int(7), CanonValue::Null]);
    for depth in [0, 1, MAX_DEPTH - 1] {
        let mut out = vec![1, 2, 3];
        write_value(&value, depth, &mut out)?;
        assert_eq!(out[..3], [1, 2, 3]);
        assert_eq!(out[3..], encode(&value)?[..]);
    }
    assert_eq!(
        write_value(&value, MAX_DEPTH + 1, &mut Vec::new()),
        Err(CanonError::TooDeep { limit: MAX_DEPTH }),
    );
    Ok(())
}

#[test]
fn a_copy_is_the_same_value() {
    let value = CanonValue::Dict(vec![
        (CanonValue::Str("k".to_owned()), CanonValue::Bytes(vec![1, 2])),
        (CanonValue::Bool(true), CanonValue::Array(vec![CanonValue::Int(-3), CanonValue::Null])),
    ]);
    assert_eq!(value.clone(), value);
}
