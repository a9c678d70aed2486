//! Decimal debug text for the integer types.
//!
//! The range formatter shows each run endpoint through the [`DebugText`]
//! trait, whose specification pins the produced characters down exactly:
//! for the integer types, the usual decimal rendering, with a leading `-`
//! for negative values.

use vstd::prelude::*;
use vstd::string::StringExecFns;

verus! {

/// The decimal digit character for `d` (meaningful for `0 <= d <= 9`).
pub open spec fn digit_char(d: int) -> char {
    if d == 0 {
        '0'
    } else if d == 1 {
        '1'
    } else if d == 2 {
        '2'
    } else if d == 3 {
        '3'
    } else if d == 4 {
        '4'
    } else if d == 5 {
        '5'
    } else if d == 6 {
        '6'
    } else if d == 7 {
        '7'
    } else if d == 8 {
        '8'
    } else {
        '9'
    }
}

/// The decimal digits of a non-negative `n`, most significant first,
/// without a sign and without leading zeros (`0` itself is one digit).
pub open spec fn dec_digits(n: int) -> Seq<char>
    decreases n,
{
    if n < 10 {
        seq![digit_char(n)]
    } else {
        dec_digits(n / 10).push(digit_char(n % 10))
    }
}

/// The decimal text of an arbitrary integer: the digits of its magnitude,
/// preceded by `-` when it is negative.
pub open spec fn int_text(v: int) -> Seq<char> {
    if v < 0 {
        seq!['-'] + dec_digits(-v)
    } else {
        dec_digits(v)
    }
}

/// A magnitude's digit string is never empty.
pub proof fn lemma_dec_digits_len(n: int)
    ensures
        dec_digits(n).len() >= 1,
    decreases n,
{
    if n >= 10 {
        lemma_dec_digits_len(n / 10);
    }
}

/// The text of any integer is non-empty.  This discharges, for the integer
/// implementations below, the non-empty-text hypothesis under which the
/// formatter's output is empty only for an empty sequence.
pub proof fn lemma_int_text_nonempty(v: int)
    ensures
        int_text(v).len() >= 1,
{
    if v < 0 {
        lemma_dec_digits_len(-v);
    } else {
        lemma_dec_digits_len(v);
    }
}

/// A deterministic, side-effect-free debug rendering for a value, with the
/// exact characters fixed by `text_spec`.
///
/// This plays the role that an opaque host-environment debug convention
/// would play: the formatter only ever shows values through it.
pub trait DebugText {
    /// The characters that `debug_text` produces.
    spec fn text_spec(&self) -> Seq<char>;

    /// Renders the value.
    fn debug_text(&self) -> (r: String)
        ensures
            r@ == self.text_spec(),
    ;
}

fn digit_str(d: u8) -> (r: &'static str)
    requires
        d < 10,
    ensures
        r@ == seq![digit_char(d as int)],
{
    let r: &'static str = match d {
        0 => "0",
        1 => "1",
        2 => "2",
        3 => "3",
        4 => "4",
        5 => "5",
        6 => "6",
        7 => "7",
        8 => "8",
        _ => "9",
    };
    proof {
        reveal_strlit("0");
        reveal_strlit("1");
        reveal_strlit("2");
        reveal_strlit("3");
        reveal_strlit("4");
        reveal_strlit("5");
        reveal_strlit("6");
        reveal_strlit("7");
        reveal_strlit("8");
        reveal_strlit("9");
        assert(r@ =~= seq![digit_char(d as int)]);
    }
    r
}

fn push_dec(n: u128, out: &mut String)
    ensures
        final(out)@ == old(out)@ + dec_digits(n as int),
    decreases n,
{
    if n >= 10 {
        push_dec(n / 10, out);
    }
    let d: u8 = (n % 10) as u8;
    out.append(digit_str(d));
    proof {
        assert(final(out)@ =~= old(out)@ + dec_digits(n as int));
    }
}

fn unsigned_text(n: u128) -> (r: String)
    ensures
        r@ == int_text(n as int),
{
    let mut out = String::new();
    push_dec(n, &mut out);
    proof {
        assert(out@ =~= int_text(n as int));
    }
    out
}

fn signed_text(v: i128) -> (r: String)
    ensures
        r@ == int_text(v as int),
{
    let mut out = String::new();
    if v < 0 {
        out.append("-");
        let m: u128 = (-(v + 1)) as u128 + 1;
        push_dec(m, &mut out);
        proof {
            reveal_strlit("-");
            assert(m as int == -(v as int));
            assert(out@ =~= int_text(v as int));
        }
    } else {
        push_dec(v as u128, &mut out);
        proof {
            assert(out@ =~= int_text(v as int));
        }
    }
    out
}

impl DebugText for u8 {
    open spec fn text_spec(&self) -> Seq<char> {
        int_text(*self as int)
    }

    fn debug_text(&self) -> (r: String) {
        unsigned_text(*self as u128)
    }
}

impl DebugText for u16 {
    open spec fn text_spec(&self) -> Seq<char> {
        int_text(*self as int)
    }

    fn debug_text(&self) -> (r: String) {
        unsigned_text(*self as u128)
    }
}

impl DebugText for u32 {
    open spec fn text_spec(&self) -> Seq<char> {
        int_text(*self as int)
    }

    fn debug_text(&self) -> (r: String) {
        unsigned_text(*self as u128)
    }
}

impl DebugText for u64 {
    open spec fn text_spec(&self) -> Seq<char> {
        int_text(*self as int)
    }

    fn debug_text(&self) -> (r: String) {
        unsigned_text(*self as u128)
    }
}

impl DebugText for u128 {
    open spec fn text_spec(&self) -> Seq<char> {
        int_text(*self as int)
    }

    fn debug_text(&self) -> (r: String) {
        unsigned_text(*self)
    }
}

impl DebugText for i8 {
    open spec fn text_spec(&self) -> Seq<char> {
        int_text(*self as int)
    }

    fn debug_text(&self) -> (r: String) {
        signed_text(*self as i128)
    }
}

impl DebugText for i16 {
    open spec fn text_spec(&self) -> Seq<char> {
        int_text(*self as int)
    }

    fn debug_text(&self) -> (r: String) {
        signed_text(*self as i128)
    }
}

impl DebugText for i32 {
    open spec fn text_spec(&self) -> Seq<char> {
        int_text(*self as int)
    }

    fn debug_text(&self) -> (r: String) {
        signed_text(*self as i128)
    }
}

impl DebugText for i64 {
    open spec fn text_spec(&self) -> Seq<char> {
        int_text(*self as int)
    }

    fn debug_text(&self) -> (r: String) {
        signed_text(*self as i128)
    }
}

impl DebugText for i128 {
    open spec fn text_spec(&self) -> Seq<char> {
        int_text(*self as int)
    }

    fn debug_text(&self) -> (r: String) {
        signed_text(*self)
    }
}

} // verus!
