//! The bytes that the text format of COPY gives a meaning to.
use vstd::prelude::*;

verus! {

pub const BACKSPACE: u8 = 0x08;

pub const TAB: u8 = 0x09;

pub const LINE_FEED: u8 = 0x0a;

pub const VERTICAL_TAB: u8 = 0x0b;

pub const FORM_FEED: u8 = 0x0c;

pub const CARRIAGE_RETURN: u8 = 0x0d;

pub const DOUBLE_QUOTE: u8 = 0x22;

pub const DOT: u8 = 0x2e;

pub const BACKSLASH: u8 = 0x5c;

/// Whether the byte at `at` stands behind a backslash that is not itself escaped.
pub open spec fn escaped_at(data: Seq<u8>, at: int) -> bool
    decreases at,
{
    at > 0 && data[at - 1] == BACKSLASH && !escaped_at(data, at - 1)
}

/// Whether a byte is escaped depends on the bytes before it alone.
pub proof fn lemma_escaped_at_prefix(left: Seq<u8>, right: Seq<u8>, at: int)
    requires
        0 <= at <= left.len(),
        at <= right.len(),
        left.take(at) == right.take(at),
    ensures
        escaped_at(left, at) == escaped_at(right, at),
    decreases at,
{
    if at > 0 {
        assert(left[at - 1] == left.take(at)[at - 1]);
        assert(right[at - 1] == right.take(at)[at - 1]);
        assert(left.take(at - 1) =~= left.take(at).take(at - 1));
        assert(right.take(at - 1) =~= right.take(at).take(at - 1));
        lemma_escaped_at_prefix(left, right, at - 1);
    }
}

/// Behind a byte that is not a backslash the count starts anew.
pub proof fn lemma_escaped_at_suffix(data: Seq<u8>, from: int, at: int)
    requires
        0 <= from <= at <= data.len(),
        !escaped_at(data, from),
    ensures
        escaped_at(data, at) == escaped_at(data.skip(from), at - from),
    decreases at,
{
    if at > from {
        lemma_escaped_at_suffix(data, from, at - 1);
        assert(data.skip(from)[at - from - 1] == data[at - 1]);
    }
}

/// The bytes of a slice, to keep.
pub fn copied(bytes: &[u8]) -> (kept: Vec<u8>)
    ensures
        kept@ == bytes@,
{
    let mut kept: Vec<u8> = Vec::new();
    kept.extend_from_slice(bytes);
    kept
}

/// Whether two slices hold the same bytes.
pub fn same_bytes(left: &[u8], right: &[u8]) -> (same: bool)
    ensures
        same == (left@ == right@),
{
    if left.len() != right.len() {
        return false;
    }
    let mut idx: usize = 0;
    while idx < left.len()
        invariant
            idx <= left@.len(),
            left@.len() == right@.len(),
            forall|i: int| 0 <= i < idx ==> left@[i] == right@[i],
        decreases left@.len() - idx,
    {
        if left[idx] != right[idx] {
            return false;
        }
        idx += 1;
    }
    assert(left@ =~= right@);
    true
}

/// The value of a hexadecimal digit.
pub open spec fn hex_digit(byte: u8) -> Option<u8> {
    if 0x30 <= byte <= 0x39 {
        Some((byte - 0x30) as u8)
    } else if 0x61 <= byte <= 0x66 {
        Some((byte - 0x61 + 10) as u8)
    } else if 0x41 <= byte <= 0x46 {
        Some((byte - 0x41 + 10) as u8)
    } else {
        None
    }
}

/// The value of a hexadecimal digit, in upper or lower case.
pub fn hex_value(byte: u8) -> (value: Option<u8>)
    ensures
        value == hex_digit(byte),
        value matches Some(digit) ==> digit < 16,
{
    match byte {
        0x30..=0x39 => Some(byte - 0x30),
        0x61..=0x66 => Some(byte - 0x61 + 10),
        0x41..=0x46 => Some(byte - 0x41 + 10),
        _ => None,
    }
}

}
