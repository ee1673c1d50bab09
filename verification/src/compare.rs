//! Executable comparison, verified against the model in `model`.
use vstd::prelude::*;

use std::cmp::Ordering;

use crate::model::all_zeros;
use crate::model::char_cmp;
use crate::model::cmp_spec;
use crate::model::digit_stream;
use crate::model::frac_cmp;
use crate::model::mag_cmp;
use crate::model::rev_ord;
use crate::model::int_len;
use crate::model::lex_cmp;
use crate::model::strip_grouping;
use crate::model::has_sign_char;
use crate::model::is_digit;
use crate::model::is_stream_char;
use crate::model::sign_negative;
use crate::model::stream_invalid;
use crate::model::DECIMAL_PT;
use crate::model::GROUPING_CHAR;

verus! {

broadcast use vstd::string::group_string_axioms;

/// The characters of `s`, collected for indexed access.
fn chars_vec(s: &str) -> (v: Vec<char>)
    ensures
        v@ == s@,
{
    let mut v: Vec<char> = Vec::new();
    for c in it: s.chars()
        invariant
            it.seq() == s@,
            v@ == it.seq().take(it.index() as int),
    {
        v.push(c);
    }
    proof {
        assert(v@ =~= s@);
    }
    v
}

/// Splits an operand into its digit stream and its sign: the index where the
/// digit stream starts (one past an optional leading `-` or `+`) and whether
/// the sign is negative.
fn parse_sign(s: &Vec<char>) -> (r: (usize, bool))
    ensures
        r.1 == sign_negative(s@),
        r.0 == if has_sign_char(s@) {
            1int
        } else {
            0int
        },
        s@.skip(r.0 as int) == digit_stream(s@),
{
    if s.len() > 0 && (s[0] == '-' || s[0] == '+') {
        proof {
            assert(s@.skip(1) =~= digit_stream(s@));
        }
        (1, s[0] == '-')
    } else {
        proof {
            assert(s@.skip(0) =~= digit_stream(s@));
        }
        (0, false)
    }
}

/// Classifies one character of a digit stream, tracking across calls whether
/// a decimal point was already seen: the first decimal point is valid and
/// sets the flag, every later one is invalid content.
fn is_invalid_char(c: char, had_decimal_pt: &mut bool) -> (r: bool)
    ensures
        *final(had_decimal_pt) == (*old(had_decimal_pt) || c == DECIMAL_PT),
        r == if c == DECIMAL_PT {
            *old(had_decimal_pt)
        } else {
            !(is_digit(c) || c == GROUPING_CHAR)
        },
{
    if c == DECIMAL_PT {
        if *had_decimal_pt {
            true
        } else {
            *had_decimal_pt = true;
            false
        }
    } else {
        !(c as u32 >= '0' as u32 && c as u32 <= '9' as u32) && c != GROUPING_CHAR
    }
}

/// Scans the digit stream that starts at `start` for invalid content: a
/// character that no digit stream may hold, or a second decimal point.
fn contains_invalid_chars(v: &Vec<char>, start: usize) -> (r: bool)
    requires
        start <= v.len(),
    ensures
        r == stream_invalid(v@.skip(start as int)),
{
    let ghost t = v@.skip(start as int);
    let mut had_decimal_pt = false;
    let ghost mut first_dot: int = 0;
    let mut i = start;
    while i < v.len()
        invariant
            start <= i <= v.len(),
            t == v@.skip(start as int),
            had_decimal_pt <==> exists|k: int| 0 <= k < i - start && t[k] == DECIMAL_PT,
            had_decimal_pt ==> 0 <= first_dot < i - start && t[first_dot] == DECIMAL_PT && (forall|
                k: int,
            |
                0 <= k < i - start && k != first_dot ==> t[k] != DECIMAL_PT),
            forall|k: int| 0 <= k < i - start ==> is_stream_char(t[k]),
        decreases v.len() - i,
    {
        let c = v[i];
        let ghost pos = i - start;
        if is_invalid_char(c, &mut had_decimal_pt) {
            proof {
                if c == DECIMAL_PT {
                    assert(t[first_dot] == DECIMAL_PT && t[pos] == DECIMAL_PT && first_dot < pos);
                } else {
                    assert(!is_stream_char(t[pos]));
                }
            }
            return true;
        }
        proof {
            if c == DECIMAL_PT {
                first_dot = pos;
            }
            assert(t[pos] == c);
        }
        i = i + 1;
    }
    proof {
        assert(i - start == t.len());
        assert(!stream_invalid(t)) by {
            if exists|k: int, j: int| 0 <= k < j < t.len() && t[k] == DECIMAL_PT && t[j]
                == DECIMAL_PT {
                let (k, j): (int, int) = choose|k: int, j: int|
                    0 <= k < j < t.len() && t[k] == DECIMAL_PT && t[j] == DECIMAL_PT;
                assert(k == first_dot && j == first_dot);
            }
        }
    }
    false
}

/// Combines the two invalid-content verdicts: an operand with invalid
/// content ranks below any valid operand, and two invalid operands are
/// equal; with two valid operands nothing is decided yet.
fn ordering_from_invalid_chars(a_invalid: bool, b_invalid: bool) -> (r: Option<Ordering>)
    ensures
        r == if a_invalid && b_invalid {
            Some(Ordering::Equal)
        } else if a_invalid {
            Some(Ordering::Less)
        } else if b_invalid {
            Some(Ordering::Greater)
        } else {
            None::<Ordering>
        },
{
    match (a_invalid, b_invalid) {
        (false, false) => None,
        (true, false) => Some(Ordering::Less),
        (false, true) => Some(Ordering::Greater),
        (true, true) => Some(Ordering::Equal),
    }
}

/// Copies the digit stream that starts at `start`, leaving every grouping
/// character out: what remains is what carries numeric weight.
fn strip_grouping_chars(v: &Vec<char>, start: usize) -> (r: Vec<char>)
    requires
        start <= v.len(),
    ensures
        r@ == strip_grouping(v@.skip(start as int)),
{
    let ghost t = v@.skip(start as int);
    let mut r: Vec<char> = Vec::new();
    let mut i = start;
    while i < v.len()
        invariant
            start <= i <= v.len(),
            t == v@.skip(start as int),
            r@ == strip_grouping(t.take(i - start)),
        decreases v.len() - i,
    {
        proof {
            assert(t.take(i - start + 1).drop_last() =~= t.take(i - start));
            assert(t.take(i - start + 1).last() == t[i - start]);
        }
        let c = v[i];
        if c != GROUPING_CHAR {
            r.push(c);
        }
        i = i + 1;
    }
    proof {
        assert(t.take(i - start) =~= t);
    }
    r
}

/// Length of the integer part of the grouping-free stream `x`: the number of
/// characters before the first decimal point.
fn integer_part_len(x: &Vec<char>) -> (n: usize)
    ensures
        n == int_len(x@),
        n <= x.len(),
{
    let mut i: usize = 0;
    proof {
        assert(x@.skip(0) =~= x@);
    }
    while i < x.len() && x[i] != DECIMAL_PT
        invariant
            i <= x.len(),
            int_len(x@) == i + int_len(x@.skip(i as int)),
        decreases x.len() - i,
    {
        proof {
            assert(x@.skip(i as int)[0] == x@[i as int]);
            assert(x@.skip(i as int).drop_first() =~= x@.skip(i + 1));
        }
        i = i + 1;
    }
    i
}

/// Three-way comparison of two characters by code point.
fn compare_chars(x: char, y: char) -> (r: Ordering)
    ensures
        r == char_cmp(x, y),
{
    if (x as u32) < (y as u32) {
        Ordering::Less
    } else if (x as u32) == (y as u32) {
        Ordering::Equal
    } else {
        Ordering::Greater
    }
}

/// Walks `n` characters of both operands in lock-step and reports the first
/// difference; equal when no position differs.
fn lex_cmp_range(a: &Vec<char>, a_off: usize, b: &Vec<char>, b_off: usize, n: usize) -> (r:
    Ordering)
    requires
        a_off + n <= a.len(),
        b_off + n <= b.len(),
    ensures
        r == lex_cmp(
            a@.subrange(a_off as int, a_off + n),
            b@.subrange(b_off as int, b_off + n),
        ),
{
    let ghost x = a@.subrange(a_off as int, a_off + n);
    let ghost y = b@.subrange(b_off as int, b_off + n);
    let mut i: usize = 0;
    proof {
        assert(x.skip(0) =~= x);
        assert(y.skip(0) =~= y);
    }
    while i < n
        invariant_except_break
            i <= n,
            a_off + n <= a.len(),
            b_off + n <= b.len(),
            x == a@.subrange(a_off as int, a_off + n),
            y == b@.subrange(b_off as int, b_off + n),
            lex_cmp(x, y) == lex_cmp(x.skip(i as int), y.skip(i as int)),
        ensures
            lex_cmp(x, y) == if i < n {
                char_cmp(x[i as int], y[i as int])
            } else {
                Ordering::Equal
            },
        decreases n - i,
    {
        proof {
            assert(x.skip(i as int)[0] == x[i as int] && x[i as int] == a@[a_off + i]);
            assert(y.skip(i as int)[0] == y[i as int] && y[i as int] == b@[b_off + i]);
            assert(x.skip(i as int).drop_first() =~= x.skip(i + 1));
            assert(y.skip(i as int).drop_first() =~= y.skip(i + 1));
        }
        if a[a_off + i] != b[b_off + i] {
            break ;
        }
        i = i + 1;
    }
    if i < n {
        compare_chars(a[a_off + i], b[b_off + i])
    } else {
        Ordering::Equal
    }
}

/// Every not-yet-examined character from `start` on is the digit zero.
fn all_zeros_from(x: &Vec<char>, start: usize) -> (r: bool)
    requires
        start <= x.len(),
    ensures
        r == all_zeros(x@.skip(start as int)),
{
    let mut i = start;
    while i < x.len()
        invariant
            start <= i <= x.len(),
            forall|k: int| 0 <= k < i - start ==> x@.skip(start as int)[k] == '0',
        decreases x.len() - i,
    {
        if x[i] != '0' {
            proof {
                assert(x@.skip(start as int)[i - start] != '0');
            }
            return false;
        }
        i = i + 1;
    }
    true
}

/// The ordering `o` is `Equal`.
fn ord_is_equal(o: Ordering) -> (r: bool)
    ensures
        r == (o == Ordering::Equal),
{
    match o {
        Ordering::Equal => true,
        _ => false,
    }
}

/// The mirror image of an ordering.
fn reverse_ordering(o: Ordering) -> (r: Ordering)
    ensures
        r == rev_ord(o),
{
    match o {
        Ordering::Less => Ordering::Greater,
        Ordering::Equal => Ordering::Equal,
        Ordering::Greater => Ordering::Less,
    }
}

/// Compares the fractional parts that start at `a_off` and `b_off`, aligned
/// at the decimal point, around the difference `rec` recorded in the integer
/// parts.
fn compare_fractions(a: &Vec<char>, a_off: usize, b: &Vec<char>, b_off: usize, rec: Ordering) -> (r:
    Ordering)
    requires
        a_off <= a.len(),
        b_off <= b.len(),
    ensures
        r == frac_cmp(a@.skip(a_off as int), b@.skip(b_off as int), rec),
{
    let ghost fx = a@.skip(a_off as int);
    let ghost fy = b@.skip(b_off as int);
    let fx_len = a.len() - a_off;
    let fy_len = b.len() - b_off;
    let m = if fx_len <= fy_len {
        fx_len
    } else {
        fy_len
    };
    proof {
        assert(fx.take(m as int) =~= a@.subrange(a_off as int, a_off + m));
        assert(fy.take(m as int) =~= b@.subrange(b_off as int, b_off + m));
        assert(fx.skip(m as int) =~= a@.skip(a_off + m));
        assert(fy.skip(m as int) =~= b@.skip(b_off + m));
    }
    let p = lex_cmp_range(a, a_off, b, b_off, m);
    if ord_is_equal(rec) && !ord_is_equal(p) {
        p
    } else if fx_len == fy_len {
        rec
    } else if fx_len > fy_len {
        if all_zeros_from(a, a_off + m) {
            Ordering::Equal
        } else {
            Ordering::Greater
        }
    } else {
        if all_zeros_from(b, b_off + m) {
            Ordering::Equal
        } else {
            Ordering::Less
        }
    }
}

/// Compares two grouping-free digit streams for magnitude.
fn compare_magnitudes(a: &Vec<char>, b: &Vec<char>) -> (r: Ordering)
    ensures
        r == mag_cmp(a@, b@),
{
    let nx = integer_part_len(a);
    let ny = integer_part_len(b);
    if nx < ny {
        Ordering::Less
    } else if nx > ny {
        Ordering::Greater
    } else {
        proof {
            assert(a@.subrange(0, nx as int) =~= a@.take(nx as int));
            assert(b@.subrange(0, ny as int) =~= b@.take(ny as int));
        }
        let rec = lex_cmp_range(a, 0, b, 0, nx);
        let a_point = nx < a.len();
        let b_point = ny < b.len();
        if a_point && b_point {
            compare_fractions(a, nx + 1, b, ny + 1, rec)
        } else if a_point {
            Ordering::Greater
        } else if b_point {
            Ordering::Less
        } else {
            rec
        }
    }
}

/// Compares `a` and `b` as numbers written in text, without parsing either
/// into a numeric type, so operands of any length compare exactly. Signs
/// order first; an operand with invalid content ranks below any valid
/// operand whatever the signs, and two invalid operands are equal; grouping
/// characters carry no weight; with equal signs the magnitudes decide,
/// reversed when the shared sign is negative.
pub fn numeric_str_cmp(a: &str, b: &str) -> (r: Ordering)
    ensures
        r == cmp_spec(a@, b@),
{
    let av = chars_vec(a);
    let bv = chars_vec(b);
    let (a_start, a_negative) = parse_sign(&av);
    let (b_start, b_negative) = parse_sign(&bv);
    let a_invalid = contains_invalid_chars(&av, a_start);
    let b_invalid = contains_invalid_chars(&bv, b_start);
    if let Some(ord) = ordering_from_invalid_chars(a_invalid, b_invalid) {
        return ord;
    }
    if a_negative != b_negative {
        return if a_negative {
            Ordering::Less
        } else {
            Ordering::Greater
        };
    }
    let fa = strip_grouping_chars(&av, a_start);
    let fb = strip_grouping_chars(&bv, b_start);
    let magnitude = compare_magnitudes(&fa, &fb);
    if a_negative {
        reverse_ordering(magnitude)
    } else {
        magnitude
    }
}

} // verus!
