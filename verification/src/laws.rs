//! Laws of the comparison: the orderings that `cmp_spec` guarantees to
//! every caller, stated and proved once over the model.
use std::cmp::Ordering;
use vstd::prelude::*;

use crate::model::all_zeros;
use crate::model::cmp_spec;
use crate::model::digit_stream;
use crate::model::has_sign_char;
use crate::model::frac_cmp;
use crate::model::int_len;
use crate::model::is_digit;
use crate::model::is_stream_char;
use crate::model::lex_cmp;
use crate::model::mag_cmp;
use crate::model::rev_ord;
use crate::model::sign_negative;
use crate::model::stream_invalid;
use crate::model::strip_grouping;
use crate::model::DECIMAL_PT;
use crate::model::GROUPING_CHAR;

verus! {

proof fn lemma_lex_cmp_refl(x: Seq<char>)
    ensures
        lex_cmp(x, x) == Ordering::Equal,
    decreases x.len(),
{
    if x.len() > 0 {
        lemma_lex_cmp_refl(x.drop_first());
    }
}

proof fn lemma_lex_cmp_antisym(x: Seq<char>, y: Seq<char>)
    ensures
        lex_cmp(y, x) == rev_ord(lex_cmp(x, y)),
    decreases x.len(),
{
    if x.len() > 0 && y.len() > 0 && x[0] == y[0] {
        lemma_lex_cmp_antisym(x.drop_first(), y.drop_first());
    }
}

proof fn lemma_frac_cmp_refl(f: Seq<char>, rec: Ordering)
    ensures
        frac_cmp(f, f, rec) == rec,
{
    lemma_lex_cmp_refl(f.take(f.len() as int));
}

proof fn lemma_frac_cmp_antisym(fx: Seq<char>, fy: Seq<char>, rec: Ordering)
    ensures
        frac_cmp(fy, fx, rev_ord(rec)) == rev_ord(frac_cmp(fx, fy, rec)),
{
    let m = if fx.len() <= fy.len() {
        fx.len() as int
    } else {
        fy.len() as int
    };
    lemma_lex_cmp_antisym(fx.take(m), fy.take(m));
}

proof fn lemma_mag_cmp_refl(x: Seq<char>)
    ensures
        mag_cmp(x, x) == Ordering::Equal,
{
    lemma_lex_cmp_refl(x.take(int_len(x) as int));
    lemma_frac_cmp_refl(x.skip(int_len(x) as int + 1), Ordering::Equal);
}

proof fn lemma_mag_cmp_antisym(x: Seq<char>, y: Seq<char>)
    ensures
        mag_cmp(y, x) == rev_ord(mag_cmp(x, y)),
{
    let nx = int_len(x) as int;
    let ny = int_len(y) as int;
    if nx == ny {
        lemma_lex_cmp_antisym(x.take(nx), y.take(ny));
        lemma_frac_cmp_antisym(x.skip(nx + 1), y.skip(ny + 1), lex_cmp(x.take(nx), y.take(ny)));
    }
}

/// Reflexivity: an operand compares equal to itself, whether its content is
/// valid or not.
pub proof fn lemma_reflexive(a: Seq<char>)
    ensures
        cmp_spec(a, a) == Ordering::Equal,
{
    if !stream_invalid(digit_stream(a)) {
        lemma_mag_cmp_refl(strip_grouping(digit_stream(a)));
    }
}

/// Antisymmetry: comparing in the one order and in the other gives mirror
/// images, so the comparison is consistent as a sort key.
pub proof fn lemma_antisymmetric(a: Seq<char>, b: Seq<char>)
    ensures
        cmp_spec(b, a) == rev_ord(cmp_spec(a, b)),
{
    let ta = digit_stream(a);
    let tb = digit_stream(b);
    if !stream_invalid(ta) && !stream_invalid(tb) && sign_negative(a) == sign_negative(b) {
        lemma_mag_cmp_antisym(
            strip_grouping(ta),
            strip_grouping(tb),
        );
    }
}

/// Sign dominance: when the signs differ and neither operand holds invalid
/// content, the negative operand is the smaller one — also when both
/// magnitudes are zero.
pub proof fn lemma_sign_dominance(a: Seq<char>, b: Seq<char>)
    requires
        sign_negative(a) != sign_negative(b),
        !stream_invalid(digit_stream(a)),
        !stream_invalid(digit_stream(b)),
    ensures
        cmp_spec(a, b) == if sign_negative(a) {
            Ordering::Less
        } else {
            Ordering::Greater
        },
{
}

/// Invalid-content ranking: an operand with invalid content ranks below any
/// valid operand, whatever the signs say, and two operands with invalid
/// content are equal to one another.
pub proof fn lemma_invalid_ranking(a: Seq<char>, b: Seq<char>)
    ensures
        stream_invalid(digit_stream(a)) && stream_invalid(digit_stream(b)) ==> cmp_spec(a, b)
            == Ordering::Equal,
        stream_invalid(digit_stream(a)) && !stream_invalid(digit_stream(b)) ==> cmp_spec(a, b)
            == Ordering::Less,
        !stream_invalid(digit_stream(a)) && stream_invalid(digit_stream(b)) ==> cmp_spec(a, b)
            == Ordering::Greater,
{
}

/// The stream `t` holds a decimal point somewhere.
pub open spec fn contains_point(t: Seq<char>) -> bool {
    exists|i: int| 0 <= i < t.len() && t[i] == DECIMAL_PT
}

proof fn lemma_invalid_unsnoc(t: Seq<char>)
    requires
        t.len() > 0,
    ensures
        stream_invalid(t) <==> (stream_invalid(t.drop_last()) || !is_stream_char(t.last()) || (
        t.last() == DECIMAL_PT && contains_point(t.drop_last()))),
{
    let u = t.drop_last();
    let n = t.len() - 1;
    assert(forall|k: int| 0 <= k < n ==> t[k] == u[k]);
    assert(t[n] == t.last());
    if stream_invalid(u) {
        if exists|i: int| 0 <= i < u.len() && !is_stream_char(u[i]) {
            let i = choose|i: int| 0 <= i < u.len() && !is_stream_char(u[i]);
            assert(!is_stream_char(t[i]));
        } else {
            let (i, j): (int, int) = choose|i: int, j: int|
                0 <= i < j < u.len() && u[i] == DECIMAL_PT && u[j] == DECIMAL_PT;
            assert(t[i] == DECIMAL_PT && t[j] == DECIMAL_PT);
        }
        assert(stream_invalid(t));
    }
    if !is_stream_char(t.last()) {
        assert(stream_invalid(t));
    }
    if t.last() == DECIMAL_PT && contains_point(u) {
        let i = choose|i: int| 0 <= i < u.len() && u[i] == DECIMAL_PT;
        assert(t[i] == DECIMAL_PT && t[n] == DECIMAL_PT);
        assert(stream_invalid(t));
    }
    if stream_invalid(t) {
        if exists|i: int| 0 <= i < t.len() && !is_stream_char(t[i]) {
            let i = choose|i: int| 0 <= i < t.len() && !is_stream_char(t[i]);
            if i < n {
                assert(!is_stream_char(u[i]));
                assert(stream_invalid(u));
            }
        } else {
            let (i, j): (int, int) = choose|i: int, j: int|
                0 <= i < j < t.len() && t[i] == DECIMAL_PT && t[j] == DECIMAL_PT;
            if j < n {
                assert(u[i] == DECIMAL_PT && u[j] == DECIMAL_PT);
                assert(stream_invalid(u));
            } else {
                assert(u[i] == DECIMAL_PT);
                assert(contains_point(u));
            }
        }
    }
}

proof fn lemma_point_unsnoc(t: Seq<char>)
    requires
        t.len() > 0,
    ensures
        contains_point(t) <==> (contains_point(t.drop_last()) || t.last() == DECIMAL_PT),
{
    let u = t.drop_last();
    let n = t.len() - 1;
    assert(forall|k: int| 0 <= k < n ==> t[k] == u[k]);
    assert(t[n] == t.last());
    if contains_point(t) {
        let i = choose|i: int| 0 <= i < t.len() && t[i] == DECIMAL_PT;
        if i < n {
            assert(u[i] == DECIMAL_PT);
        }
    }
    if contains_point(u) {
        let i = choose|i: int| 0 <= i < u.len() && u[i] == DECIMAL_PT;
        assert(t[i] == DECIMAL_PT);
    }
}

proof fn lemma_strip_grouping_point(t: Seq<char>)
    ensures
        contains_point(strip_grouping(t)) <==> contains_point(t),
    decreases t.len(),
{
    if t.len() == 0 {
        assert(!contains_point(t));
        assert(!contains_point(strip_grouping(t)));
    } else {
        let u = t.drop_last();
        lemma_strip_grouping_point(u);
        lemma_point_unsnoc(t);
        if t.last() == GROUPING_CHAR {
        } else {
            let s = strip_grouping(t);
            assert(s == strip_grouping(u).push(t.last()));
            assert(s.drop_last() =~= strip_grouping(u));
            assert(s.last() == t.last());
            lemma_point_unsnoc(s);
        }
    }
}

proof fn lemma_strip_grouping_invalid(t: Seq<char>)
    ensures
        stream_invalid(strip_grouping(t)) <==> stream_invalid(t),
    decreases t.len(),
{
    if t.len() == 0 {
        assert(!stream_invalid(t));
        assert(!stream_invalid(strip_grouping(t)));
    } else {
        let u = t.drop_last();
        lemma_strip_grouping_invalid(u);
        lemma_strip_grouping_point(u);
        lemma_invalid_unsnoc(t);
        if t.last() == GROUPING_CHAR {
        } else {
            let s = strip_grouping(t);
            assert(s == strip_grouping(u).push(t.last()));
            assert(s.drop_last() =~= strip_grouping(u));
            assert(s.last() == t.last());
            assert(s.len() > 0);
            lemma_invalid_unsnoc(s);
        }
    }
}

proof fn lemma_int_len_append(x: Seq<char>, z: Seq<char>)
    requires
        contains_point(x),
    ensures
        int_len(x + z) == int_len(x),
        int_len(x) < x.len(),
    decreases x.len(),
{
    assert(x.len() > 0);
    assert((x + z)[0] == x[0]);
    if x[0] == DECIMAL_PT {
    } else {
        let i = choose|i: int| 0 <= i < x.len() && x[i] == DECIMAL_PT;
        assert(x.drop_first()[i - 1] == DECIMAL_PT);
        assert((x + z).drop_first() =~= x.drop_first() + z);
        lemma_int_len_append(x.drop_first(), z);
    }
}

proof fn lemma_frac_append_zeros(f: Seq<char>, z: Seq<char>)
    requires
        all_zeros(z),
    ensures
        frac_cmp(f + z, f, Ordering::Equal) == Ordering::Equal,
{
    let m = f.len() as int;
    assert((f + z).take(m) =~= f);
    assert(f.take(m) =~= f);
    lemma_lex_cmp_refl(f);
    if z.len() == 0 {
        assert(f + z =~= f);
    } else {
        assert((f + z).skip(m) =~= z);
    }
}

proof fn lemma_strip_append_zeros(t: Seq<char>, z: Seq<char>)
    requires
        all_zeros(z),
    ensures
        strip_grouping(t + z) == strip_grouping(t) + z,
    decreases z.len(),
{
    if z.len() == 0 {
        assert(t + z =~= t);
        assert(strip_grouping(t) + z =~= strip_grouping(t));
    } else {
        let z0 = z.drop_last();
        assert(all_zeros(z0));
        assert(z.last() == '0');
        assert((t + z).drop_last() =~= t + z0);
        assert((t + z).last() == z.last());
        lemma_strip_append_zeros(t, z0);
        assert(strip_grouping(t + z) == strip_grouping(t + z0).push(z.last()));
        assert(strip_grouping(t) + z =~= (strip_grouping(t) + z0).push(z.last()));
    }
}

proof fn lemma_append_zeros_valid(t: Seq<char>, z: Seq<char>)
    requires
        !stream_invalid(t),
        all_zeros(z),
    ensures
        !stream_invalid(t + z),
{
    let w = t + z;
    assert(is_digit('0'));
    if exists|i: int| 0 <= i < w.len() && !is_stream_char(w[i]) {
        let i = choose|i: int| 0 <= i < w.len() && !is_stream_char(w[i]);
        if i < t.len() {
            assert(t[i] == w[i]);
            assert(stream_invalid(t));
        } else {
            assert(w[i] == z[i - t.len()]);
        }
    }
    if exists|i: int, j: int| 0 <= i < j < w.len() && w[i] == DECIMAL_PT && w[j] == DECIMAL_PT {
        let (i, j): (int, int) = choose|i: int, j: int|
            0 <= i < j < w.len() && w[i] == DECIMAL_PT && w[j] == DECIMAL_PT;
        if j < t.len() {
            assert(t[i] == w[i] && t[j] == w[j]);
            assert(stream_invalid(t));
        } else {
            assert(w[j] == z[j - t.len()]);
        }
    }
}

/// Fractional trailing-zero equivalence: appending zero digits after the
/// decimal point of a well-formed operand leaves it equal to what it was.
pub proof fn lemma_trailing_fraction_zeros(a: Seq<char>, z: Seq<char>)
    requires
        !stream_invalid(digit_stream(a)),
        contains_point(digit_stream(a)),
        all_zeros(z),
    ensures
        cmp_spec(a + z, a) == Ordering::Equal,
        cmp_spec(a, a + z) == Ordering::Equal,
{
    let ta = digit_stream(a);
    if a.len() == 0 {
        assert(ta =~= a);
        assert(false);
    }
    assert((a + z)[0] == a[0]);
    assert(has_sign_char(a + z) == has_sign_char(a));
    assert(digit_stream(a + z) =~= ta + z);
    assert(sign_negative(a + z) == sign_negative(a));
    lemma_append_zeros_valid(ta, z);
    lemma_strip_append_zeros(ta, z);
    lemma_strip_grouping_point(ta);
    let x = strip_grouping(ta);
    lemma_int_len_append(x, z);
    let nx = int_len(x) as int;
    lemma_lex_cmp_refl(x.take(nx));
    assert((x + z).take(nx) =~= x.take(nx));
    assert((x + z).skip(nx + 1) =~= x.skip(nx + 1) + z);
    lemma_frac_append_zeros(x.skip(nx + 1), z);
    assert(mag_cmp(x + z, x) == Ordering::Equal);
    assert(cmp_spec(a + z, a) == Ordering::Equal);
    lemma_antisymmetric(a + z, a);
}

/// Grouping-character transparency: two operands of equal sign whose digit
/// streams agree once every grouping character is dropped compare the same
/// way against any third operand, in either position.
pub proof fn lemma_grouping_transparency(a: Seq<char>, a2: Seq<char>, b: Seq<char>)
    requires
        sign_negative(a) == sign_negative(a2),
        strip_grouping(digit_stream(a)) == strip_grouping(digit_stream(a2)),
    ensures
        cmp_spec(a, b) == cmp_spec(a2, b),
        cmp_spec(b, a) == cmp_spec(b, a2),
{
    lemma_strip_grouping_invalid(digit_stream(a));
    lemma_strip_grouping_invalid(digit_stream(a2));
    lemma_antisymmetric(a, b);
    lemma_antisymmetric(a2, b);
}

} // verus!
