//! The host engine's side of the calling convention, as plain numbers: the
//! tags it puts on row values, and what it is told when the aggregate is
//! registered.

use vstd::prelude::*;

verus! {

/// The release of the host's interface that the numbers below belong to:
/// 3.42.0.
pub const SQLITE_VERSION_NUMBER: u32 = 3042000;

/// The host's code for success.
pub const SQLITE_OK: u32 = 0;

/// The tag of a 64-bit signed integer.
pub const SQLITE_INTEGER: u32 = 1;

/// The tag of a binary64 float.
pub const SQLITE_FLOAT: u32 = 2;

/// The tag of a text value.
pub const SQLITE_TEXT: u32 = 3;

/// The tag of a binary payload.
pub const SQLITE_BLOB: u32 = 4;

/// The tag of a null.
pub const SQLITE_NULL: u32 = 5;

/// The flag for a function that takes its text as UTF-8.
pub const SQLITE_UTF8: u32 = 1;

/// The flag for a function that gives the same result for the same inputs
/// within one statement.
pub const SQLITE_DETERMINISTIC: u32 = 0x800;

/// The kinds of value that a row can hold.
#[derive(Debug, Clone, Copy, PartialEq, Eq, Structural)]
pub enum ValueKind {
    Null,
    Integer,
    Float,
    Text,
    Blob,
}

/// The kind that a tag stands for. The tag space is closed: no other number
/// is a tag.
pub open spec fn kind_of_tag(tag: i32) -> Option<ValueKind> {
    if tag == SQLITE_INTEGER {
        Some(ValueKind::Integer)
    } else if tag == SQLITE_FLOAT {
        Some(ValueKind::Float)
    } else if tag == SQLITE_TEXT {
        Some(ValueKind::Text)
    } else if tag == SQLITE_BLOB {
        Some(ValueKind::Blob)
    } else if tag == SQLITE_NULL {
        Some(ValueKind::Null)
    } else {
        None
    }
}

/// Reads the host's tag of a row value.
pub fn value_kind(tag: i32) -> (kind: Option<ValueKind>)
    ensures
        kind == kind_of_tag(tag),
        kind is Some <==> 1 <= tag <= 5,
{
    if tag < 0 {
        return None;
    }
    let tag = tag as u32;
    if tag == SQLITE_INTEGER {
        Some(ValueKind::Integer)
    } else if tag == SQLITE_FLOAT {
        Some(ValueKind::Float)
    } else if tag == SQLITE_TEXT {
        Some(ValueKind::Text)
    } else if tag == SQLITE_BLOB {
        Some(ValueKind::Blob)
    } else if tag == SQLITE_NULL {
        Some(ValueKind::Null)
    } else {
        None
    }
}

/// What the host is told about the aggregate when it is registered.
#[derive(Debug, Clone, Copy)]
pub struct Registration {
    /// The name under which queries call the aggregate.
    pub name: &'static str,
    /// The number of arguments it takes.
    pub arity: i32,
    /// The text encoding and what the aggregate declares of itself.
    pub flags: u32,
}

/// The one aggregate of this library: `approx_count_distinct`, of one
/// argument, deterministic, with UTF-8 text.
pub fn registration() -> (entry: Registration)
    ensures
        entry.name@ == "approx_count_distinct"@,
        entry.arity == 1,
        entry.flags == 0x801,
        entry.flags == SQLITE_UTF8 | SQLITE_DETERMINISTIC,
{
    assert(1u32 | 0x800u32 == 0x801u32) by (bit_vector);
    Registration {
        name: "approx_count_distinct",
        arity: 1,
        flags: SQLITE_UTF8 | SQLITE_DETERMINISTIC,
    }
}

} // verus!
