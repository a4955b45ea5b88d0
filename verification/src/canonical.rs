//! Canonical tokens: one hashable form per logical row value.
//!
//! A row value arrives tagged as null, integer, float, text or binary
//! payload. Floats travel as their IEEE-754 binary64 bit pattern, so that
//! every value in this crate is an integer or a byte string. A token keeps
//! the tag of the value it came from: an integer and a float never share a
//! token, whatever number they stand for.

use vstd::prelude::*;

verus! {

/// Exponent bias of binary64 (1023) plus the width of its fraction field (52).
pub const EXPONENT_SHIFT: i16 = 1075;

/// The low 52 bits of a binary64 pattern.
pub open spec fn fraction_field(bits: u64) -> int {
    bits as int % 0x10_0000_0000_0000
}

/// The 11 bits of a binary64 pattern that follow the fraction.
pub open spec fn exponent_field(bits: u64) -> int {
    (bits as int / 0x10_0000_0000_0000) % 0x800
}

/// The top bit of a binary64 pattern.
pub open spec fn sign_field(bits: u64) -> int {
    bits as int / 0x8000_0000_0000_0000
}

/// The significand as an integer. A subnormal pattern (exponent field 0) has
/// no implicit bit: its significand is the fraction as it stands. A normal
/// pattern gets its implicit leading bit back.
pub open spec fn decoded_mantissa(bits: u64) -> int {
    if exponent_field(bits) == 0 {
        fraction_field(bits)
    } else {
        fraction_field(bits) + 0x10_0000_0000_0000
    }
}

/// The exponent field without its bias and without the width of the
/// fraction: the power of two that scales the significand of a normal float
/// to its magnitude. Every subnormal has -1075 here, and no normal float has.
pub open spec fn decoded_exponent(bits: u64) -> int {
    exponent_field(bits) - 1075
}

/// `1` for a clear sign bit, `-1` for a set one.
pub open spec fn decoded_sign(bits: u64) -> int {
    if sign_field(bits) == 0 {
        1
    } else {
        -1
    }
}

/// A float taken apart into integer fields that can be hashed and compared.
#[derive(Debug, Clone, Copy, Hash, PartialEq, Eq, Structural)]
pub struct HashableF64 {
    pub mantissa: u64,
    pub exponent: i16,
    pub sign: i8,
}

impl HashableF64 {
    /// The decomposition of the binary64 pattern `bits`.
    pub open spec fn of_bits(bits: u64) -> HashableF64 {
        HashableF64 {
            mantissa: decoded_mantissa(bits) as u64,
            exponent: decoded_exponent(bits) as i16,
            sign: decoded_sign(bits) as i8,
        }
    }

    /// Takes the float with the bit pattern `bits` apart.
    pub fn from_bits(bits: u64) -> (token: HashableF64)
        ensures
            token == Self::of_bits(bits),
    {
        let (mantissa, exponent, sign) = integer_decode(bits);
        HashableF64 { mantissa, exponent, sign }
    }
}

proof fn lemma_fields_by_shifts(bits: u64)
    ensures
        bits >> 63 == sign_field(bits),
        (bits >> 52) & 0x7ff == exponent_field(bits),
        bits & 0xfffffffffffff == fraction_field(bits),
        (bits & 0xfffffffffffff) | 0x10000000000000 == fraction_field(bits) + 0x10_0000_0000_0000,
{
    assert(bits >> 63 == bits / 0x8000_0000_0000_0000) by (bit_vector);
    assert((bits >> 52) & 0x7ff == (bits / 0x10_0000_0000_0000) % 0x800) by (bit_vector);
    assert(bits & 0xfffffffffffff == bits % 0x10_0000_0000_0000) by (bit_vector);
    assert((bits & 0xfffffffffffff) | 0x10000000000000 == (bits % 0x10_0000_0000_0000)
        + 0x10_0000_0000_0000) by (bit_vector);
}

/// Splits the binary64 pattern `bits` into significand, exponent and sign.
///
/// The magnitude of a normal float is `mantissa * 2^exponent`. A subnormal
/// float keeps its fraction as `mantissa`, under the exponent -1075, and has
/// the magnitude `mantissa * 2^-1074`. Infinities and NaNs keep their payload
/// in `mantissa` under the exponent 972.
pub fn integer_decode(bits: u64) -> (fields: (u64, i16, i8))
    ensures
        fields.0 == decoded_mantissa(bits),
        fields.1 == decoded_exponent(bits),
        fields.2 == decoded_sign(bits),
        fields.0 < 0x20_0000_0000_0000,
        -1075 <= fields.1 <= 972,
{
    proof {
        lemma_fields_by_shifts(bits);
    }
    let sign: i8 = if bits >> 63 == 0 {
        1
    } else {
        -1
    };
    let biased: u64 = (bits >> 52) & 0x7ff;
    let mantissa: u64 = if biased == 0 {
        bits & 0xfffffffffffff
    } else {
        (bits & 0xfffffffffffff) | 0x10000000000000
    };
    let exponent: i16 = biased as i16 - EXPONENT_SHIFT;
    (mantissa, exponent, sign)
}

/// Distinct bit patterns have distinct decompositions: the sign bit, every
/// exponent and every NaN payload stays visible in the token, and so `+0.0`
/// and `-0.0` are two values.
pub proof fn lemma_decomposition_is_injective(a: u64, b: u64)
    requires
        HashableF64::of_bits(a) == HashableF64::of_bits(b),
    ensures
        a == b,
{
    lemma_fields_rebuild(a);
    lemma_fields_rebuild(b);
}

proof fn lemma_fields_rebuild(bits: u64)
    ensures
        bits == sign_field(bits) * 0x8000_0000_0000_0000 + exponent_field(bits)
            * 0x10_0000_0000_0000 + fraction_field(bits),
        0 <= sign_field(bits) <= 1,
        0 <= exponent_field(bits) < 0x800,
        0 <= fraction_field(bits) < 0x10_0000_0000_0000,
        HashableF64::of_bits(bits).mantissa == decoded_mantissa(bits),
        HashableF64::of_bits(bits).exponent == decoded_exponent(bits),
        HashableF64::of_bits(bits).sign == decoded_sign(bits),
{
}

/// A row value as the host hands it over.
#[derive(Debug, Clone, PartialEq, Eq)]
pub enum Value {
    Null,
    Integer(i64),
    /// A float, as its binary64 bit pattern.
    Float(u64),
    Text(Vec<u8>),
    /// A binary payload. Its bytes are never read.
    Blob,
}

/// What a `Value` holds.
pub enum Datum {
    Null,
    Integer(i64),
    Float(u64),
    Text(Seq<u8>),
    Blob,
}

impl View for Value {
    type V = Datum;

    open spec fn view(&self) -> Datum {
        match *self {
            Value::Null => Datum::Null,
            Value::Integer(v) => Datum::Integer(v),
            Value::Float(bits) => Datum::Float(bits),
            Value::Text(bytes) => Datum::Text(bytes@),
            Value::Blob => Datum::Blob,
        }
    }
}

/// The hashable form of a value that counts.
#[derive(Debug, Clone, Hash, PartialEq, Eq)]
pub enum CanonicalValue {
    Integer(i64),
    Float(HashableF64),
    Text(Vec<u8>),
}

/// What a `CanonicalValue` holds.
pub enum Token {
    Integer(i64),
    Float(HashableF64),
    Text(Seq<u8>),
}

impl View for CanonicalValue {
    type V = Token;

    open spec fn view(&self) -> Token {
        match *self {
            CanonicalValue::Integer(v) => Token::Integer(v),
            CanonicalValue::Float(fields) => Token::Float(fields),
            CanonicalValue::Text(bytes) => Token::Text(bytes@),
        }
    }
}

/// Why a row was refused.
#[derive(Debug, Clone, Copy, PartialEq, Eq, Structural)]
pub enum StepError {
    /// The row holds a binary payload, which has no canonical form.
    UnsupportedBlob,
}

/// The token of a value: none for a null, which does not count, and an error
/// for a binary payload, which must not be passed over in silence.
pub open spec fn canonical_form(datum: Datum) -> Result<Option<Token>, StepError> {
    match datum {
        Datum::Null => Ok(None),
        Datum::Integer(v) => Ok(Some(Token::Integer(v))),
        Datum::Float(bits) => Ok(Some(Token::Float(HashableF64::of_bits(bits)))),
        Datum::Text(bytes) => Ok(Some(Token::Text(bytes))),
        Datum::Blob => Err(StepError::UnsupportedBlob),
    }
}

/// The token that a row adds to a sketch, if it adds one.
pub open spec fn token_of(datum: Datum) -> Option<Token> {
    match canonical_form(datum) {
        Ok(token) => token,
        Err(_) => None,
    }
}

/// Brings a row value into its canonical form.
pub fn canonicalize(value: Value) -> (outcome: Result<Option<CanonicalValue>, StepError>)
    ensures
        match canonical_form(value@) {
            Ok(Some(token)) => outcome matches Ok(Some(canonical)) && canonical@ == token,
            Ok(None) => outcome == Ok::<Option<CanonicalValue>, StepError>(None),
            Err(error) => outcome == Err::<Option<CanonicalValue>, StepError>(error),
        },
{
    match value {
        Value::Null => Ok(None),
        Value::Integer(v) => Ok(Some(CanonicalValue::Integer(v))),
        Value::Float(bits) => Ok(Some(CanonicalValue::Float(HashableF64::from_bits(bits)))),
        Value::Text(bytes) => Ok(Some(CanonicalValue::Text(bytes))),
        Value::Blob => Err(StepError::UnsupportedBlob),
    }
}

/// Tokens are told apart by what they hold: two floats with different bit
/// patterns, and an integer and a float in any case, never share one.
pub proof fn lemma_tokens_keep_values_apart(a: Datum, b: Datum)
    requires
        token_of(a) is Some,
        token_of(a) == token_of(b),
    ensures
        a == b,
{
    match (a, b) {
        (Datum::Float(x), Datum::Float(y)) => {
            lemma_decomposition_is_injective(x, y);
        },
        _ => {},
    }
}

} // verus!
