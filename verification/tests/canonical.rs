//! Canonical tokens and the decomposition of floats.

use sqlitehll::canonical::{
    canonicalize, integer_decode, CanonicalValue, HashableF64, StepError, Value,
};
use sqlitehll::host::{
    registration, value_kind, ValueKind, SQLITE_BLOB, SQLITE_DETERMINISTIC, SQLITE_FLOAT,
    SQLITE_INTEGER, SQLITE_NULL, SQLITE_OK, SQLITE_TEXT, SQLITE_UTF8,
};

fn magnitude(fields: (u64, i16, i8)) -> f64 {
    let power = if fields.1 == -1075 { -1074 } else { fields.1 as i32 };
    let half = power / 2;
    let rest = power - half;
    (fields.2 as f64) * (fields.0 as f64) * 2f64.powi(half) * 2f64.powi(rest)
}

#[test]
fn decode_one() {
    assert_eq!(integer_decode(1.0f64.to_bits()), (1u64 << 52, -52, 1));
}

#[test]
fn decode_minus_two_and_a_half() {
    assert_eq!(integer_decode((-2.5f64).to_bits()), (5u64 << 50, -51, -1));
}

#[test]
fn decode_zeros_differ_in_sign_only() {
    assert_eq!(integer_decode(0.0f64.to_bits()), (0, -1075, 1));
    assert_eq!(integer_decode((-0.0f64).to_bits()), (0, -1075, -1));
    assert_ne!(
        HashableF64::from_bits(0.0f64.to_bits()),
        HashableF64::from_bits((-0.0f64).to_bits())
    );
}

#[test]
fn decode_smallest_subnormal() {
    assert_eq!(integer_decode(1), (1, -1075, 1));
    assert_eq!(integer_decode(f64::from_bits(1).to_bits()), (1, -1075, 1));
    assert_eq!(magnitude(integer_decode(1)), f64::from_bits(1));
}

#[test]
fn decode_largest_subnormal_and_smallest_normal() {
    assert_eq!(integer_decode(0x000f_ffff_ffff_ffff), (0x000f_ffff_ffff_ffff, -1075, 1));
    assert_eq!(integer_decode(0x0010_0000_0000_0000), (0x0010_0000_0000_0000, -1074, 1));
}

#[test]
fn decode_subnormal_keeps_its_fraction_unshifted() {
    assert_eq!(integer_decode(0x0000_0000_0000_0003), (3, -1075, 1));
    assert_eq!(integer_decode(0x8008_0000_0000_0000), (1u64 << 51, -1075, -1));
    let token = HashableF64::from_bits(2);
    assert_eq!(token, HashableF64 { mantissa: 2, exponent: -1075, sign: 1 });
}

#[test]
fn subnormal_and_normal_with_one_fraction_differ_in_exponent_and_implicit_bit() {
    assert_eq!(integer_decode(0x0000_0000_0000_0001), (1, -1075, 1));
    assert_eq!(integer_decode(0x0010_0000_0000_0001), ((1u64 << 52) + 1, -1074, 1));
}

#[test]
fn decode_largest_finite() {
    assert_eq!(integer_decode(f64::MAX.to_bits()), (0x001f_ffff_ffff_ffff, 971, 1));
}

#[test]
fn decode_infinities_and_nan() {
    assert_eq!(integer_decode(f64::INFINITY.to_bits()), (1u64 << 52, 972, 1));
    assert_eq!(integer_decode(f64::NEG_INFINITY.to_bits()), (1u64 << 52, 972, -1));
    assert_eq!(integer_decode(0x7ff8_0000_0000_0000), (3u64 << 51, 972, 1));
    assert_eq!(integer_decode(0x7ff8_0000_0000_0001), ((3u64 << 51) + 1, 972, 1));
}

#[test]
fn decode_gives_back_the_value_of_finite_floats() {
    for x in [0.1f64, -0.1, 3.0, 1e300, -1e-300, 5e-324, 123456.789e-7, f64::MIN_POSITIVE] {
        assert_eq!(magnitude(integer_decode(x.to_bits())), x);
    }
}

#[test]
fn hashable_float_holds_the_decoded_fields() {
    let token = HashableF64::from_bits(6.0f64.to_bits());
    assert_eq!(token, HashableF64 { mantissa: 3u64 << 51, exponent: -50, sign: 1 });
}

#[test]
fn different_bit_patterns_give_different_tokens() {
    let patterns = [
        0u64,
        1,
        2,
        0x000f_ffff_ffff_ffff,
        0x0010_0000_0000_0000,
        0x0010_0000_0000_0001,
        0x3ff0_0000_0000_0000,
        0x7ff0_0000_0000_0000,
        0x7ff8_0000_0000_0000,
        0x8000_0000_0000_0000,
        0xfff8_0000_0000_0000,
        u64::MAX,
    ];
    for (i, a) in patterns.iter().enumerate() {
        for (j, b) in patterns.iter().enumerate() {
            assert_eq!(HashableF64::from_bits(*a) == HashableF64::from_bits(*b), i == j);
        }
    }
}

#[test]
fn null_has_no_token() {
    assert!(matches!(canonicalize(Value::Null), Ok(None)));
}

#[test]
fn integer_token_is_the_integer() {
    assert!(matches!(
        canonicalize(Value::Integer(i64::MIN)),
        Ok(Some(CanonicalValue::Integer(i64::MIN)))
    ));
}

#[test]
fn float_token_is_the_decomposition() {
    let expected = HashableF64 { mantissa: 1u64 << 52, exponent: -52, sign: 1 };
    match canonicalize(Value::Float(1.0f64.to_bits())) {
        Ok(Some(CanonicalValue::Float(fields))) => assert_eq!(fields, expected),
        other => panic!("unexpected {other:?}"),
    }
}

#[test]
fn integer_and_float_of_one_number_have_different_tokens() {
    let integer = canonicalize(Value::Integer(1));
    let float = canonicalize(Value::Float(1.0f64.to_bits()));
    assert!(matches!(integer, Ok(Some(CanonicalValue::Integer(1)))));
    assert!(matches!(float, Ok(Some(CanonicalValue::Float(_)))));
}

#[test]
fn text_token_is_the_bytes() {
    match canonicalize(Value::Text(vec![0xff, 0x00, b'a'])) {
        Ok(Some(CanonicalValue::Text(bytes))) => assert_eq!(bytes, vec![0xff, 0x00, b'a']),
        other => panic!("unexpected {other:?}"),
    }
}

#[test]
fn blob_has_no_canonical_form() {
    assert!(matches!(canonicalize(Value::Blob), Err(StepError::UnsupportedBlob)));
}

#[test]
fn tags_are_read_as_the_host_defines_them() {
    assert_eq!(value_kind(1), Some(ValueKind::Integer));
    assert_eq!(value_kind(2), Some(ValueKind::Float));
    assert_eq!(value_kind(3), Some(ValueKind::Text));
    assert_eq!(value_kind(4), Some(ValueKind::Blob));
    assert_eq!(value_kind(5), Some(ValueKind::Null));
    assert_eq!(value_kind(SQLITE_INTEGER as i32), Some(ValueKind::Integer));
    assert_eq!(value_kind(SQLITE_FLOAT as i32), Some(ValueKind::Float));
    assert_eq!(value_kind(SQLITE_TEXT as i32), Some(ValueKind::Text));
    assert_eq!(value_kind(SQLITE_BLOB as i32), Some(ValueKind::Blob));
    assert_eq!(value_kind(SQLITE_NULL as i32), Some(ValueKind::Null));
}

#[test]
fn numbers_outside_the_tag_space_are_no_tags() {
    for tag in [0, 6, 7, -1, i32::MIN, i32::MAX] {
        assert_eq!(value_kind(tag), None);
    }
}

#[test]
fn the_aggregate_is_registered_as_approx_count_distinct() {
    let entry = registration();
    assert_eq!(entry.name, "approx_count_distinct");
    assert_eq!(entry.arity, 1);
    assert_eq!(entry.flags, 0x801);
    assert_eq!(entry.flags, SQLITE_UTF8 | SQLITE_DETERMINISTIC);
    assert_eq!(SQLITE_OK, 0);
}
