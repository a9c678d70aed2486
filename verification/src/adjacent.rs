//! The adjacency capability: "does the first value's successor equal the
//! second value?"
//!
//! Implementations are provided for the fixed-width integer types (successor
//! by one, with the type's maximum value adjacent to nothing: no wraparound)
//! and for `char` (successor by one code point, where crossing into an
//! invalid code point yields no successor).

use vstd::prelude::*;

verus! {

/// Checks whether an item is "adjacent" to another item, meaning that the
/// first value's successor equals the second.
///
/// The relation need not be symmetric or transitive: it models "successor",
/// not an equivalence.
pub trait IsAdjacent {
    /// What `is_adjacent` decides.
    spec fn adjacent_spec(&self, other: &Self) -> bool;

    /// Returns `true` if `self` is adjacent to `other`.
    fn is_adjacent(&self, other: &Self) -> (r: bool)
        ensures
            r == self.adjacent_spec(other),
    ;
}

impl IsAdjacent for u8 {
    open spec fn adjacent_spec(&self, other: &Self) -> bool {
        *other as int == *self as int + 1
    }

    fn is_adjacent(&self, other: &Self) -> (r: bool) {
        *self < u8::MAX && *other == *self + 1
    }
}

impl IsAdjacent for u16 {
    open spec fn adjacent_spec(&self, other: &Self) -> bool {
        *other as int == *self as int + 1
    }

    fn is_adjacent(&self, other: &Self) -> (r: bool) {
        *self < u16::MAX && *other == *self + 1
    }
}

impl IsAdjacent for u32 {
    open spec fn adjacent_spec(&self, other: &Self) -> bool {
        *other as int == *self as int + 1
    }

    fn is_adjacent(&self, other: &Self) -> (r: bool) {
        *self < u32::MAX && *other == *self + 1
    }
}

impl IsAdjacent for u64 {
    open spec fn adjacent_spec(&self, other: &Self) -> bool {
        *other as int == *self as int + 1
    }

    fn is_adjacent(&self, other: &Self) -> (r: bool) {
        *self < u64::MAX && *other == *self + 1
    }
}

impl IsAdjacent for u128 {
    open spec fn adjacent_spec(&self, other: &Self) -> bool {
        *other as int == *self as int + 1
    }

    fn is_adjacent(&self, other: &Self) -> (r: bool) {
        *self < u128::MAX && *other == *self + 1
    }
}

impl IsAdjacent for i8 {
    open spec fn adjacent_spec(&self, other: &Self) -> bool {
        *other as int == *self as int + 1
    }

    fn is_adjacent(&self, other: &Self) -> (r: bool) {
        *self < i8::MAX && *other == *self + 1
    }
}

impl IsAdjacent for i16 {
    open spec fn adjacent_spec(&self, other: &Self) -> bool {
        *other as int == *self as int + 1
    }

    fn is_adjacent(&self, other: &Self) -> (r: bool) {
        *self < i16::MAX && *other == *self + 1
    }
}

impl IsAdjacent for i32 {
    open spec fn adjacent_spec(&self, other: &Self) -> bool {
        *other as int == *self as int + 1
    }

    fn is_adjacent(&self, other: &Self) -> (r: bool) {
        *self < i32::MAX && *other == *self + 1
    }
}

impl IsAdjacent for i64 {
    open spec fn adjacent_spec(&self, other: &Self) -> bool {
        *other as int == *self as int + 1
    }

    fn is_adjacent(&self, other: &Self) -> (r: bool) {
        *self < i64::MAX && *other == *self + 1
    }
}

impl IsAdjacent for i128 {
    open spec fn adjacent_spec(&self, other: &Self) -> bool {
        *other as int == *self as int + 1
    }

    fn is_adjacent(&self, other: &Self) -> (r: bool) {
        *self < i128::MAX && *other == *self + 1
    }
}

impl IsAdjacent for char {
    /// A `char` is adjacent to the next code point.  Since every `char` is a
    /// valid Unicode scalar, "incrementing `self` stays a valid scalar and
    /// equals `other`" is the same as comparing the code points themselves:
    /// an invalid or out-of-range successor equals no `char` at all.
    open spec fn adjacent_spec(&self, other: &Self) -> bool {
        *other as u32 == *self as u32 + 1
    }

    fn is_adjacent(&self, other: &Self) -> (r: bool) {
        proof {
            vstd::utf8::char_is_scalar(*self);
        }
        (*self as u32) + 1 == (*other as u32)
    }
}

/// Boundary law: the maximum representable value of each supported type has
/// no successor, so it is never adjacent to anything — wraparound pairs such
/// as `(MAX, MIN)` are not merged.
pub proof fn lemma_max_never_adjacent()
    ensures
        forall|v: u8| !(#[trigger] u8::MAX.adjacent_spec(&v)),
        forall|v: u16| !(#[trigger] u16::MAX.adjacent_spec(&v)),
        forall|v: u32| !(#[trigger] u32::MAX.adjacent_spec(&v)),
        forall|v: u64| !(#[trigger] u64::MAX.adjacent_spec(&v)),
        forall|v: u128| !(#[trigger] u128::MAX.adjacent_spec(&v)),
        forall|v: i8| !(#[trigger] i8::MAX.adjacent_spec(&v)),
        forall|v: i16| !(#[trigger] i16::MAX.adjacent_spec(&v)),
        forall|v: i32| !(#[trigger] i32::MAX.adjacent_spec(&v)),
        forall|v: i64| !(#[trigger] i64::MAX.adjacent_spec(&v)),
        forall|v: i128| !(#[trigger] i128::MAX.adjacent_spec(&v)),
        forall|v: char| !(#[trigger] ('\u{10FFFF}'.adjacent_spec(&v))),
{
    assert forall|v: char| !(#[trigger] ('\u{10FFFF}'.adjacent_spec(&v))) by {
        vstd::utf8::char_is_scalar(v);
    }
}

} // verus!
