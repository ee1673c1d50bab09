//! Mathematical model of the numeric text comparison.
//!
//! An operand is a sequence of characters. It decomposes into an optional
//! leading sign (`-` or `+`) and a digit stream: the characters after the
//! sign. Within a digit stream, ASCII digits are significant, the grouping
//! character `,` is cosmetic and carries no weight, and at most one decimal
//! point `.` separates the integer part from the fractional part. Any other
//! character, or a second decimal point, makes the stream invalid.
//!
//! `cmp_spec` states the result of comparing two operands: invalid operands
//! rank below valid ones (and equal to each other), operands of different
//! sign order by sign, and operands of equal sign order by magnitude, with
//! the result reversed when the shared sign is negative.
use std::cmp::Ordering;
use vstd::prelude::*;

verus! {

/// The cosmetic grouping character, skipped wherever it occurs.
pub const GROUPING_CHAR: char = ',';

/// The decimal point, of which a digit stream may hold at most one.
pub const DECIMAL_PT: char = '.';

/// `c` is an ASCII decimal digit.
pub open spec fn is_digit(c: char) -> bool {
    '0' as u32 <= c as u32 && c as u32 <= '9' as u32
}

/// `c` may appear in a digit stream: a digit, the grouping character, or a
/// decimal point (a second decimal point is caught separately).
pub open spec fn is_stream_char(c: char) -> bool {
    is_digit(c) || c == GROUPING_CHAR || c == DECIMAL_PT
}

/// The digit stream `t` holds invalid content: a character that no digit
/// stream may hold, or a second decimal point.
pub open spec fn stream_invalid(t: Seq<char>) -> bool {
    ||| exists|i: int| 0 <= i < t.len() && !is_stream_char(t[i])
    ||| exists|i: int, j: int| 0 <= i < j < t.len() && t[i] == DECIMAL_PT && t[j] == DECIMAL_PT
}

/// The operand `s` carries a leading sign character.
pub open spec fn has_sign_char(s: Seq<char>) -> bool {
    s.len() > 0 && (s[0] == '-' || s[0] == '+')
}

/// The operand `s` is negative: it starts with `-`.
pub open spec fn sign_negative(s: Seq<char>) -> bool {
    s.len() > 0 && s[0] == '-'
}

/// The digit stream of operand `s`: everything after the optional sign.
pub open spec fn digit_stream(s: Seq<char>) -> Seq<char> {
    if has_sign_char(s) {
        s.drop_first()
    } else {
        s
    }
}

/// The digit stream `t` with every grouping character removed.
pub open spec fn strip_grouping(t: Seq<char>) -> Seq<char>
    decreases t.len(),
{
    if t.len() == 0 {
        Seq::empty()
    } else if t.last() == GROUPING_CHAR {
        strip_grouping(t.drop_last())
    } else {
        strip_grouping(t.drop_last()).push(t.last())
    }
}

/// Length of the integer part of a grouping-free stream `x`: the number of
/// characters before the first decimal point (all of `x` if it has none).
pub open spec fn int_len(x: Seq<char>) -> nat
    decreases x.len(),
{
    if x.len() == 0 || x[0] == DECIMAL_PT {
        0
    } else {
        1 + int_len(x.drop_first())
    }
}

/// The stream `x` holds a decimal point.
pub open spec fn has_point(x: Seq<char>) -> bool {
    int_len(x) < x.len()
}

/// Three-way comparison of two characters by code point.
pub open spec fn char_cmp(a: char, b: char) -> Ordering {
    if (a as u32) < (b as u32) {
        Ordering::Less
    } else if (a as u32) == (b as u32) {
        Ordering::Equal
    } else {
        Ordering::Greater
    }
}

/// The first character difference between `x` and `y`, walked in lock-step;
/// equal when no position differs before one side ends.
pub open spec fn lex_cmp(x: Seq<char>, y: Seq<char>) -> Ordering
    decreases x.len(),
{
    if x.len() == 0 || y.len() == 0 {
        Ordering::Equal
    } else if x[0] != y[0] {
        char_cmp(x[0], y[0])
    } else {
        lex_cmp(x.drop_first(), y.drop_first())
    }
}

/// Every character of `x` is the digit zero.
pub open spec fn all_zeros(x: Seq<char>) -> bool {
    forall|i: int| 0 <= i < x.len() ==> x[i] == '0'
}

/// The mirror image of an ordering.
pub open spec fn rev_ord(o: Ordering) -> Ordering {
    match o {
        Ordering::Less => Ordering::Greater,
        Ordering::Equal => Ordering::Equal,
        Ordering::Greater => Ordering::Less,
    }
}

/// Comparison of the fractional parts `fx` and `fy`, aligned at the decimal
/// point. `rec` is the difference recorded while walking the integer parts.
/// A fresh digit difference decides only when no integer difference was
/// recorded; when one side runs out first, a suffix of zeros on the longer
/// side means the magnitudes are equal, and any other suffix makes the
/// longer side the larger one.
pub open spec fn frac_cmp(fx: Seq<char>, fy: Seq<char>, rec: Ordering) -> Ordering {
    let m = if fx.len() <= fy.len() {
        fx.len() as int
    } else {
        fy.len() as int
    };
    let p = lex_cmp(fx.take(m), fy.take(m));
    if rec == Ordering::Equal && p != Ordering::Equal {
        p
    } else if fx.len() == fy.len() {
        rec
    } else if fx.len() > fy.len() {
        if all_zeros(fx.skip(m)) {
            Ordering::Equal
        } else {
            Ordering::Greater
        }
    } else {
        if all_zeros(fy.skip(m)) {
            Ordering::Equal
        } else {
            Ordering::Less
        }
    }
}

/// Magnitude comparison of two grouping-free digit streams. A longer integer
/// part wins outright; with equal integer part lengths, a stream that goes
/// on with a decimal point outranks one that ends, and otherwise the
/// fractional parts settle it around the first recorded digit difference.
/// The integer parts compare by textual length, not by numeric value, so
/// non-significant leading zeros carry weight — deliberate, to match the
/// behavior of conventional numeric-sort tooling.
pub open spec fn mag_cmp(x: Seq<char>, y: Seq<char>) -> Ordering {
    let nx = int_len(x) as int;
    let ny = int_len(y) as int;
    if nx < ny {
        Ordering::Less
    } else if nx > ny {
        Ordering::Greater
    } else {
        let rec = lex_cmp(x.take(nx), y.take(ny));
        if has_point(x) && has_point(y) {
            frac_cmp(x.skip(nx + 1), y.skip(ny + 1), rec)
        } else if has_point(x) {
            Ordering::Greater
        } else if has_point(y) {
            Ordering::Less
        } else {
            rec
        }
    }
}

/// The full comparison of two operands. Signs order first, but an operand
/// with invalid content ranks below any valid operand whatever the signs,
/// and two invalid operands are equal. With equal signs and valid content
/// the magnitudes decide, reversed when the shared sign is negative.
pub open spec fn cmp_spec(a: Seq<char>, b: Seq<char>) -> Ordering {
    let ta = digit_stream(a);
    let tb = digit_stream(b);
    let neg_a = sign_negative(a);
    let neg_b = sign_negative(b);
    let inv_a = stream_invalid(ta);
    let inv_b = stream_invalid(tb);
    if inv_a && inv_b {
        Ordering::Equal
    } else if inv_a {
        Ordering::Less
    } else if inv_b {
        Ordering::Greater
    } else if neg_a != neg_b {
        if neg_a {
            Ordering::Less
        } else {
            Ordering::Greater
        }
    } else {
        let m = mag_cmp(strip_grouping(ta), strip_grouping(tb));
        if neg_a {
            rev_ord(m)
        } else {
            m
        }
    }
}

} // verus!
