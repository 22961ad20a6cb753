//! The library-wide laws, stated and proved once over the specification
//! functions that the executable contracts are written in.
use vstd::prelude::*;
use crate::api::spec_resolve;
use crate::errors::{OmniPayError, UfiError};
use crate::find::{lemma_spec_find, lemma_spec_find_is, spec_find};
use crate::scaled::{
    all_digit_chars, canonical_decimal_chars, decimal_value_chars, digit_val, digits_val,
    is_digit_char, lemma_digits_val_div_mod, lemma_digits_val_injective_fixed_len,
    lemma_digits_val_upper, lemma_frac_scale_unique, lemma_pow10_adds, lemma_pow10_pos,
    lemma_split_div_mod, lemma_whole_part_unique, pow10,
};
use crate::utils::spec_parse_decimal;

verus! {

/// The conversion formula: for any whole and fractional digit runs `w` and
/// `f` with `|f| <= p`, the decimal string `w.f` parses at precision `p`
/// to exactly `digits_val(w) * 10^p + digits_val(f) * 10^(p - |f|)`.
pub proof fn lemma_scaled_conversion_formula(w: Seq<char>, f: Seq<char>, p: nat)
    requires
        all_digit_chars(w),
        all_digit_chars(f),
        f.len() <= p,
    ensures
        spec_parse_decimal(w + seq!['.'] + f, p) == Ok::<nat, UfiError>(
            digits_val(w) * pow10(p) + digits_val(f) * pow10((p - f.len()) as nat),
        ),
{
    let s = w + seq!['.'] + f;
    let wl = w.len() as int;
    assert(s[wl] == '.');
    assert('.' as int == 46);
    assert forall|j: int| 0 <= j < wl implies s[j] != '.' by {
        assert(s[j] == w[j]);
        assert(is_digit_char(w[j]));
    }
    lemma_spec_find_is(s, '.', wl);
    // the string is no zero-exponent artifact: its second character is a
    // digit or the dot, never an 'E'
    if s.len() >= 3 && s[1] == 'E' {
        assert('E' as int == 69);
        if wl == 0 {
            assert(s[0] == '.');
            assert('0' as int == 48);
        } else if wl == 1 {
            assert(s[1] == '.');
        } else {
            assert(s[1] == w[1]);
            assert(is_digit_char(w[1]));
        }
        assert(false);
    }
    assert(s.take(wl) =~= w);
    assert(s.skip(wl + 1) =~= f);
}

/// Resolving a template against parameters is deterministic: the outcome
/// is a function of the template and the parameters alone, so resolving
/// twice yields identical output.
pub proof fn lemma_resolve_deterministic(
    t: Seq<char>,
    ps: Seq<Seq<char>>,
    r1: Result<Seq<char>, OmniPayError>,
    r2: Result<Seq<char>, OmniPayError>,
)
    requires
        r1 == spec_resolve(t, ps),
        r2 == spec_resolve(t, ps),
    ensures
        r1 == r2,
{
}

/// The round trip: a string rendered in canonical decimal form re-parses,
/// at the same precision, to exactly the value it renders — strings need
/// not survive the trip, values must.
pub proof fn lemma_canonical_decimal_reparses(s: Seq<char>, p: nat, v: nat)
    requires
        decimal_value_chars(s, p) == Some(v),
        canonical_decimal_chars(s),
    ensures
        spec_parse_decimal(s, p) == Ok::<nat, UfiError>(v),
{
    lemma_spec_find(s, '.');
    // a canonical decimal string is no zero-exponent artifact: its second
    // character is a digit or the dot, never an 'E'
    if s.len() >= 3 && s[1] == 'E' {
        assert('E' as int == 69);
        match spec_find(s, '.') {
            None => {
                assert(is_digit_char(s[1]));
            },
            Some(i) => {
                if i == 1 {
                    assert(s[1] == '.');
                    assert('.' as int == 46);
                } else {
                    assert(s.take(i)[1] == s[1]);
                    assert(is_digit_char(s.take(i)[1]));
                }
            },
        }
        assert(false);
    }
}

/// How a canonical string's value splits at `10^p`: the quotient is the
/// whole part's value; the remainder is zero exactly when the string has
/// no fractional part, and otherwise carries the fractional digits at
/// their power of ten.
proof fn lemma_canonical_value_shape(s: Seq<char>, p: nat, v: nat)
    requires
        canonical_decimal_chars(s),
        decimal_value_chars(s, p) == Some(v),
    ensures
        match spec_find(s, '.') {
            None => v / pow10(p) == digits_val(s) && v % pow10(p) == 0,
            Some(i) => {
                let f = s.skip(i + 1);
                &&& 1 <= f.len() <= p
                &&& v / pow10(p) == digits_val(s.take(i))
                &&& v % pow10(p) == digits_val(f) * pow10((p - f.len()) as nat)
                &&& digits_val(f) % 10 != 0
                &&& v % pow10(p) != 0
            },
        },
{
    lemma_pow10_pos(p);
    match spec_find(s, '.') {
        None => {
            lemma_split_div_mod(v, pow10(p), digits_val(s), 0);
        },
        Some(i) => {
            lemma_spec_find(s, '.');
            let wv = digits_val(s.take(i));
            let f = s.skip(i + 1);
            let k = f.len();
            lemma_digits_val_div_mod(f);
            assert(f.last() == s.last());
            assert('0' as int == 48);
            assert(is_digit_char(f.last()));
            assert(digit_val(f.last()) != 0);
            let fv = digits_val(f);
            assert(fv % 10 != 0);
            lemma_digits_val_upper(f);
            lemma_pow10_adds((p - k) as nat, k);
            lemma_pow10_pos((p - k) as nat);
            assert(fv * pow10((p - k) as nat) < pow10(k) * pow10((p - k) as nat))
                by (nonlinear_arith)
                requires
                    fv < pow10(k),
                    pow10((p - k) as nat) >= 1,
            ;
            assert(pow10((p - k) as nat) * pow10(k) == pow10(k) * pow10((p - k) as nat))
                by (nonlinear_arith);
            lemma_split_div_mod(v, pow10(p), wv, fv * pow10((p - k) as nat));
            assert(fv * pow10((p - k) as nat) >= 1) by (nonlinear_arith)
                requires
                    fv >= 1,
                    pow10((p - k) as nat) >= 1,
            ;
        },
    }
}

/// Canonical forms are unique: two canonical decimal strings that denote
/// the same value at the same precision are byte-identical. With the
/// formatter's contract this pins the rendering of an amount down to the
/// one canonical string of its value.
pub proof fn lemma_canonical_decimal_unique(s1: Seq<char>, s2: Seq<char>, p: nat)
    requires
        canonical_decimal_chars(s1),
        canonical_decimal_chars(s2),
        decimal_value_chars(s1, p) is Some,
        decimal_value_chars(s1, p) == decimal_value_chars(s2, p),
    ensures
        s1 == s2,
{
    let v = match decimal_value_chars(s1, p) {
        Some(x) => x,
        None => 0,
    };
    lemma_canonical_value_shape(s1, p, v);
    lemma_canonical_value_shape(s2, p, v);
    lemma_spec_find(s1, '.');
    lemma_spec_find(s2, '.');
    match (spec_find(s1, '.'), spec_find(s2, '.')) {
        (None, None) => {
            lemma_whole_part_unique(s1, s2);
        },
        (None, Some(_)) => {
            assert(false);
        },
        (Some(_), None) => {
            assert(false);
        },
        (Some(i1), Some(i2)) => {
            let w1 = s1.take(i1);
            let w2 = s2.take(i2);
            let f1 = s1.skip(i1 + 1);
            let f2 = s2.skip(i2 + 1);
            assert(w1[0] == s1[0] || i1 == 1);
            assert(w2[0] == s2[0] || i2 == 1);
            lemma_whole_part_unique(w1, w2);
            assert(i1 == i2);
            lemma_frac_scale_unique(
                digits_val(f1),
                (p - f1.len()) as nat,
                digits_val(f2),
                (p - f2.len()) as nat,
            );
            assert(f1.len() == f2.len());
            lemma_digits_val_injective_fixed_len(f1, f2);
            assert(s1 =~= w1 + seq!['.'] + f1);
            assert(s2 =~= w2 + seq!['.'] + f2);
        },
    }
}

} // verus!
