//! Scaled on-chain amounts: arbitrary-width unsigned integers counting a
//! coin's smallest indivisible units.
//!
//! A `ScaledAmount` stores decimal digits, least significant first, with no
//! high-order zero digit, so every value has exactly one representation.
//! Its mathematical view is the natural number the digits denote.
use vstd::prelude::*;
use vstd::string::StringExecFns;
use crate::find::{spec_find, lemma_spec_find_is, lemma_spec_find_absent};

verus! {

/// `10^e`.
pub open spec fn pow10(e: nat) -> nat
    decreases e,
{
    if e == 0 {
        1
    } else {
        10 * pow10((e - 1) as nat)
    }
}

/// Value of a little-endian decimal digit sequence.
pub open spec fn dec_val(s: Seq<u8>) -> nat
    decreases s.len(),
{
    if s.len() == 0 {
        0
    } else {
        s[0] as nat + 10 * dec_val(s.drop_first())
    }
}

/// Every element is a decimal digit value.
pub open spec fn all_digit_values(s: Seq<u8>) -> bool {
    forall|i: int| 0 <= i < s.len() ==> s[i] < 10
}

/// No high-order zero digit: the empty sequence is the one form of zero.
pub open spec fn no_leading_zero(s: Seq<u8>) -> bool {
    s.len() == 0 || s.last() != 0
}

pub proof fn lemma_dec_val_empty()
    ensures
        dec_val(Seq::<u8>::empty()) == 0,
{
    assert(Seq::<u8>::empty().len() == 0);
}

pub proof fn lemma_dec_val_singleton(d: u8)
    ensures
        dec_val(seq![d]) == d as nat,
{
    let s = seq![d];
    assert(s.len() == 1 && s[0] == d);
    assert(s.drop_first() =~= Seq::<u8>::empty());
    lemma_dec_val_empty();
    assert(dec_val(s) == s[0] as nat + 10 * dec_val(s.drop_first()));
}

pub broadcast proof fn lemma_pow10_pos(e: nat)
    ensures
        #[trigger] pow10(e) >= 1,
    decreases e,
{
    if e > 0 {
        lemma_pow10_pos((e - 1) as nat);
    }
}

pub proof fn lemma_pow10_adds(a: nat, b: nat)
    ensures
        pow10(a + b) == pow10(a) * pow10(b),
    decreases a,
{
    if a == 0 {
        assert(pow10(0 + b) == 1 * pow10(b));
    } else {
        lemma_pow10_adds((a - 1) as nat, b);
        assert(pow10(a + b) == 10 * pow10((a + b - 1) as nat));
        assert(10 * (pow10((a - 1) as nat) * pow10(b)) == (10 * pow10((a - 1) as nat)) * pow10(b))
            by (nonlinear_arith);
    }
}

pub proof fn lemma_pow10_increases(a: nat, b: nat)
    requires
        a <= b,
    ensures
        pow10(a) <= pow10(b),
{
    lemma_pow10_adds(a, (b - a) as nat);
    lemma_pow10_pos((b - a) as nat);
    assert(pow10(a) * 1 <= pow10(a) * pow10((b - a) as nat)) by (nonlinear_arith)
        requires pow10((b - a) as nat) >= 1, pow10(a) >= 0;
}

/// Appending a digit on the high end adds `d * 10^len`.
pub proof fn lemma_dec_val_push(s: Seq<u8>, d: u8)
    ensures
        dec_val(s.push(d)) == dec_val(s) + d * pow10(s.len()),
    decreases s.len(),
{
    if s.len() == 0 {
        assert(s.push(d) =~= seq![d]);
        lemma_dec_val_singleton(d);
        assert(dec_val(s) == 0);
        assert(pow10(s.len()) == 1);
        assert(dec_val(s.push(d)) == dec_val(s) + d * pow10(s.len()));
    } else {
        assert(s.push(d).drop_first() =~= s.drop_first().push(d));
        lemma_dec_val_push(s.drop_first(), d);
        assert(s.push(d).len() > 0 && s.push(d)[0] == s[0]);
        assert(dec_val(s.push(d)) == s[0] as nat + 10 * dec_val(s.drop_first().push(d)));
        assert(pow10(s.len()) == 10 * pow10((s.len() - 1) as nat));
        assert(10 * (dec_val(s.drop_first()) + d * pow10((s.len() - 1) as nat)) == 10 * dec_val(
            s.drop_first(),
        ) + d * (10 * pow10((s.len() - 1) as nat))) by (nonlinear_arith);
        assert(dec_val(s) == s[0] as nat + 10 * dec_val(s.drop_first()));
        assert(dec_val(s.push(d)) == dec_val(s) + d * pow10(s.len()));
    }
}

/// A digit sequence denotes less than `10^len`.
pub proof fn lemma_dec_val_upper(s: Seq<u8>)
    requires
        all_digit_values(s),
    ensures
        dec_val(s) < pow10(s.len()),
    decreases s.len(),
{
    if s.len() > 0 {
        lemma_dec_val_upper(s.drop_first());
        assert(dec_val(s.drop_first()) <= pow10((s.len() - 1) as nat) - 1);
        assert(10 * dec_val(s.drop_first()) <= 10 * (pow10((s.len() - 1) as nat) - 1))
            by (nonlinear_arith)
            requires dec_val(s.drop_first()) <= pow10((s.len() - 1) as nat) - 1;
    }
}

/// A sequence with a nonzero top digit denotes at least `10^(len-1)`.
pub proof fn lemma_dec_val_lower(s: Seq<u8>)
    requires
        s.len() > 0,
        s.last() != 0,
    ensures
        dec_val(s) >= pow10((s.len() - 1) as nat),
    decreases s.len(),
{
    if s.len() == 1 {
        assert(dec_val(s) == s[0] as nat + 10 * dec_val(s.drop_first()));
    } else {
        lemma_dec_val_lower(s.drop_first());
        assert(10 * dec_val(s.drop_first()) >= 10 * pow10((s.len() - 2) as nat))
            by (nonlinear_arith)
            requires dec_val(s.drop_first()) >= pow10((s.len() - 2) as nat);
        assert(pow10((s.len() - 1) as nat) == 10 * pow10((s.len() - 2) as nat));
    }
}

/// A canonical digit sequence denotes zero only when it is empty.
pub proof fn lemma_dec_val_zero_iff_empty(s: Seq<u8>)
    requires
        no_leading_zero(s),
    ensures
        (dec_val(s) == 0) <==> (s.len() == 0),
{
    if s.len() > 0 {
        lemma_dec_val_lower(s);
        lemma_pow10_pos((s.len() - 1) as nat);
    }
}

/// Splitting a sequence splits its value at the matching power of ten.
pub proof fn lemma_dec_val_split(s: Seq<u8>, k: int)
    requires
        0 <= k <= s.len(),
    ensures
        dec_val(s) == dec_val(s.take(k)) + pow10(k as nat) * dec_val(s.skip(k)),
    decreases k,
{
    if k == 0 {
        assert(s.take(0) =~= Seq::<u8>::empty());
        assert(s.skip(0) =~= s);
        lemma_dec_val_empty();
        assert(pow10(0) == 1);
        assert(dec_val(s) == dec_val(s.take(0)) + pow10(0) * dec_val(s.skip(0)));
    } else {
        assert(s.len() > 0);
        lemma_dec_val_split(s.drop_first(), k - 1);
        assert(s.take(k).drop_first() =~= s.drop_first().take(k - 1));
        assert(s.skip(k) =~= s.drop_first().skip(k - 1));
        assert(s.take(k).len() > 0 && s.take(k)[0] == s[0]);
        assert(dec_val(s.take(k)) == s[0] as nat + 10 * dec_val(s.drop_first().take(k - 1)));
        let a = dec_val(s.drop_first().take(k - 1));
        let b = dec_val(s.drop_first().skip(k - 1));
        let p = pow10((k - 1) as nat);
        assert(dec_val(s.drop_first()) == a + p * b);
        assert(dec_val(s) == s[0] as nat + 10 * dec_val(s.drop_first()));
        assert(10 * (a + p * b) == 10 * a + (10 * p) * b) by (nonlinear_arith);
        assert(pow10(k as nat) == 10 * p);
        assert(dec_val(s) == (s[0] as nat + 10 * a) + (10 * p) * b);
        assert(dec_val(s) == dec_val(s.take(k)) + pow10(k as nat) * dec_val(s.skip(k)));
    }
}

/// Dropping a high-order zero digit keeps the value.
pub proof fn lemma_dec_val_drop_last_zero(s: Seq<u8>)
    requires
        s.len() > 0,
        s.last() == 0,
    ensures
        dec_val(s) == dec_val(s.drop_last()),
{
    assert(s =~= s.drop_last().push(s.last()));
    lemma_dec_val_push(s.drop_last(), s.last());
}

/// Prepending `k` zero digits multiplies the value by `10^k`.
pub proof fn lemma_dec_val_zeros_prepend(k: nat, s: Seq<u8>)
    ensures
        dec_val(Seq::new(k, |i: int| 0u8) + s) == pow10(k) * dec_val(s),
    decreases k,
{
    let z = Seq::new(k, |i: int| 0u8);
    if k == 0 {
        assert(z + s =~= s);
        assert(pow10(0nat) == 1);
        assert(pow10(k) * dec_val(s) == dec_val(s)) by (nonlinear_arith)
            requires
                pow10(k) == 1,
        ;
    } else {
        let z1 = Seq::new((k - 1) as nat, |i: int| 0u8);
        lemma_dec_val_zeros_prepend((k - 1) as nat, s);
        assert((z + s).len() > 0 && (z + s)[0] == 0);
        assert((z + s).drop_first() =~= z1 + s);
        assert(dec_val(z + s) == 0 + 10 * dec_val(z1 + s));
        assert(10 * (pow10((k - 1) as nat) * dec_val(s)) == (10 * pow10((k - 1) as nat)) * dec_val(
            s,
        )) by (nonlinear_arith);
        assert(pow10(k) == 10 * pow10((k - 1) as nat));
        assert(dec_val(z + s) == pow10(k) * dec_val(s));
    }
}

/// Equal-length sequences compare as their top-most differing digit does.
pub proof fn lemma_dec_val_cmp_at(s: Seq<u8>, t: Seq<u8>, i: int)
    requires
        s.len() == t.len(),
        0 <= i < s.len(),
        all_digit_values(s),
        all_digit_values(t),
        forall|j: int| i < j < s.len() ==> s[j] == t[j],
        s[i] < t[i],
    ensures
        dec_val(s) < dec_val(t),
{
    lemma_dec_val_split(s, i + 1);
    lemma_dec_val_split(t, i + 1);
    assert(s.skip(i + 1) =~= t.skip(i + 1));
    lemma_dec_val_split(s.take(i + 1), i);
    lemma_dec_val_split(t.take(i + 1), i);
    assert(s.take(i + 1).take(i) =~= s.take(i));
    assert(t.take(i + 1).take(i) =~= t.take(i));
    assert(s.take(i + 1).skip(i) =~= seq![s[i]]);
    assert(t.take(i + 1).skip(i) =~= seq![t[i]]);
    lemma_dec_val_singleton(s[i]);
    lemma_dec_val_singleton(t[i]);
    lemma_dec_val_upper(s.take(i));
    lemma_pow10_pos(i as nat);
    let pi = pow10(i as nat);
    assert(dec_val(s.take(i + 1)) == dec_val(s.take(i)) + pi * (s[i] as nat));
    assert(dec_val(t.take(i + 1)) == dec_val(t.take(i)) + pi * (t[i] as nat));
    assert(dec_val(s.take(i)) + pi * (s[i] as nat) < pi * (t[i] as nat)) by (nonlinear_arith)
        requires
            dec_val(s.take(i)) < pi,
            s[i] < t[i],
            pi >= 1,
    ;
}

/// `c` is an ASCII decimal digit.
pub open spec fn is_digit_char(c: char) -> bool {
    48 <= c as int && c as int <= 57
}

/// Numeric value of a digit character.
pub open spec fn digit_val(c: char) -> nat {
    (c as int - 48) as nat
}

/// Every character is an ASCII decimal digit.
pub open spec fn all_digit_chars(s: Seq<char>) -> bool {
    forall|i: int| 0 <= i < s.len() ==> is_digit_char(s[i])
}

/// Numeric value of a run of digit characters, most significant first.
pub open spec fn digits_val(s: Seq<char>) -> nat
    decreases s.len(),
{
    if s.len() == 0 {
        0
    } else {
        10 * digits_val(s.drop_last()) + digit_val(s.last())
    }
}

/// The leading digit contributes its value at the highest power of ten.
pub proof fn lemma_digits_val_prepend(s: Seq<char>)
    requires
        s.len() > 0,
    ensures
        digits_val(s) == digit_val(s[0]) * pow10((s.len() - 1) as nat) + digits_val(
            s.drop_first(),
        ),
    decreases s.len(),
{
    if s.len() == 1 {
        assert(s.drop_last() =~= Seq::<char>::empty());
        assert(s.drop_first() =~= Seq::<char>::empty());
        assert(digits_val(s) == 10 * digits_val(s.drop_last()) + digit_val(s.last()));
        assert(pow10(0nat) == 1);
        assert(digit_val(s[0]) * 1 == digit_val(s[0])) by (nonlinear_arith);
    } else {
        lemma_digits_val_prepend(s.drop_last());
        assert(s.drop_last()[0] == s[0]);
        assert(s.drop_last().drop_first() =~= s.drop_first().drop_last());
        assert(s.drop_first().last() == s.last());
        let d0 = digit_val(s[0]);
        let p = pow10((s.len() - 2) as nat);
        let x = digits_val(s.drop_first().drop_last());
        assert(digits_val(s.drop_last()) == d0 * p + x);
        assert(digits_val(s) == 10 * (d0 * p + x) + digit_val(s.last()));
        assert(digits_val(s.drop_first()) == 10 * x + digit_val(s.last()));
        assert(10 * (d0 * p + x) == d0 * (10 * p) + 10 * x) by (nonlinear_arith);
        assert(pow10((s.len() - 1) as nat) == 10 * p);
    }
}

/// A run of digit characters denotes less than `10^len`.
pub proof fn lemma_digits_val_upper(s: Seq<char>)
    requires
        all_digit_chars(s),
    ensures
        digits_val(s) < pow10(s.len()),
    decreases s.len(),
{
    if s.len() > 0 {
        lemma_digits_val_upper(s.drop_last());
        assert(digit_val(s.last()) <= 9);
        assert(10 * digits_val(s.drop_last()) <= 10 * (pow10((s.len() - 1) as nat) - 1))
            by (nonlinear_arith)
            requires digits_val(s.drop_last()) <= pow10((s.len() - 1) as nat) - 1;
        assert(pow10(s.len()) == 10 * pow10((s.len() - 1) as nat));
    }
}

/// A run led by a nonzero digit denotes at least `10^(len-1)`.
pub proof fn lemma_digits_val_lower(s: Seq<char>)
    requires
        all_digit_chars(s),
        s.len() > 0,
        s[0] != '0',
    ensures
        digits_val(s) >= pow10((s.len() - 1) as nat),
{
    lemma_digits_val_prepend(s);
    assert('0' as int == 48);
    assert(digit_val(s[0]) >= 1);
    lemma_pow10_pos((s.len() - 1) as nat);
    assert(digit_val(s[0]) * pow10((s.len() - 1) as nat) >= pow10((s.len() - 1) as nat))
        by (nonlinear_arith)
        requires digit_val(s[0]) >= 1, pow10((s.len() - 1) as nat) >= 1;
}

/// The last digit and the rest are the value's remainder and quotient by
/// ten.
pub proof fn lemma_digits_val_div_mod(s: Seq<char>)
    requires
        all_digit_chars(s),
        s.len() > 0,
    ensures
        digits_val(s) % 10 == digit_val(s.last()),
        digits_val(s) / 10 == digits_val(s.drop_last()),
{
    let q = digits_val(s.drop_last());
    let r = digit_val(s.last());
    assert(r < 10);
    assert(digits_val(s) == 10 * q + r);
    assert((10 * q + r) % 10 == r && (10 * q + r) / 10 == q) by (nonlinear_arith)
        requires r < 10, q >= 0;
}

/// Equal-length runs with equal values are the same run.
pub proof fn lemma_digits_val_injective_fixed_len(s1: Seq<char>, s2: Seq<char>)
    requires
        all_digit_chars(s1),
        all_digit_chars(s2),
        s1.len() == s2.len(),
        digits_val(s1) == digits_val(s2),
    ensures
        s1 == s2,
    decreases s1.len(),
{
    if s1.len() == 0 {
        assert(s1 =~= s2);
    } else {
        lemma_digits_val_div_mod(s1);
        lemma_digits_val_div_mod(s2);
        assert(digit_val(s1.last()) == digit_val(s2.last()));
        assert(s1.last() == s2.last());
        lemma_digits_val_injective_fixed_len(s1.drop_last(), s2.drop_last());
        assert(s1 =~= s1.drop_last().push(s1.last()));
        assert(s2 =~= s2.drop_last().push(s2.last()));
    }
}

/// A whole part in canonical form — one digit, or led by a nonzero digit —
/// is determined by its value.
pub proof fn lemma_whole_part_unique(s1: Seq<char>, s2: Seq<char>)
    requires
        all_digit_chars(s1),
        all_digit_chars(s2),
        s1.len() > 0 && (s1.len() == 1 || s1[0] != '0'),
        s2.len() > 0 && (s2.len() == 1 || s2[0] != '0'),
        digits_val(s1) == digits_val(s2),
    ensures
        s1 == s2,
{
    if s1.len() < s2.len() {
        lemma_digits_val_upper(s1);
        lemma_digits_val_lower(s2);
        lemma_pow10_increases(s1.len(), (s2.len() - 1) as nat);
        assert(false);
    }
    if s2.len() < s1.len() {
        lemma_digits_val_upper(s2);
        lemma_digits_val_lower(s1);
        lemma_pow10_increases(s2.len(), (s1.len() - 1) as nat);
        assert(false);
    }
    lemma_digits_val_injective_fixed_len(s1, s2);
}

/// A sum `w * P + m` with `m < P` splits back into `w` and `m`.
pub proof fn lemma_split_div_mod(v: nat, p: nat, w: nat, m: nat)
    requires
        p >= 1,
        v == w * p + m,
        m < p,
    ensures
        v / p == w,
        v % p == m,
{
    assert(v / p == w && v % p == m) by (nonlinear_arith)
        requires
            p >= 1,
            v == w * p + m,
            m < p,
    ;
}

/// Values whose last digit is nonzero scale to equal multiples of powers
/// of ten only at the same power, with equal values.
pub proof fn lemma_frac_scale_unique(f1: nat, a: nat, f2: nat, b: nat)
    requires
        f1 % 10 != 0,
        f2 % 10 != 0,
        f1 * pow10(a) == f2 * pow10(b),
    ensures
        a == b,
        f1 == f2,
    decreases a + b,
{
    if a == 0 && b == 0 {
        assert(f1 * 1 == f1 && f2 * 1 == f2) by (nonlinear_arith);
    } else if a > 0 && b > 0 {
        assert(pow10(a) == 10 * pow10((a - 1) as nat));
        assert(pow10(b) == 10 * pow10((b - 1) as nat));
        assert(f1 * (10 * pow10((a - 1) as nat)) == (f1 * pow10((a - 1) as nat)) * 10)
            by (nonlinear_arith);
        assert(f2 * (10 * pow10((b - 1) as nat)) == (f2 * pow10((b - 1) as nat)) * 10)
            by (nonlinear_arith);
        assert(f1 * pow10((a - 1) as nat) == f2 * pow10((b - 1) as nat));
        lemma_frac_scale_unique(f1, (a - 1) as nat, f2, (b - 1) as nat);
    } else if a == 0 {
        // f1 == f2 * 10^b with b > 0 would make f1 a multiple of ten
        assert(pow10(b) == 10 * pow10((b - 1) as nat));
        assert(f1 * 1 == f1) by (nonlinear_arith);
        assert(f1 == (f2 * pow10((b - 1) as nat)) * 10) by (nonlinear_arith)
            requires
                f1 == f2 * (10 * pow10((b - 1) as nat)),
        ;
        assert(((f2 * pow10((b - 1) as nat)) * 10) % 10 == 0) by (nonlinear_arith);
        assert(false);
    } else {
        assert(pow10(a) == 10 * pow10((a - 1) as nat));
        assert(f2 * 1 == f2) by (nonlinear_arith);
        assert(f2 == (f1 * pow10((a - 1) as nat)) * 10) by (nonlinear_arith)
            requires
                f2 == f1 * (10 * pow10((a - 1) as nat)),
        ;
        assert(((f1 * pow10((a - 1) as nat)) * 10) % 10 == 0) by (nonlinear_arith);
        assert(false);
    }
}

/// The character of a decimal digit value.
pub open spec fn digit_char(d: nat) -> char {
    if d == 0 {
        '0'
    } else if d == 1 {
        '1'
    } else if d == 2 {
        '2'
    } else if d == 3 {
        '3'
    } else if d == 4 {
        '4'
    } else if d == 5 {
        '5'
    } else if d == 6 {
        '6'
    } else if d == 7 {
        '7'
    } else if d == 8 {
        '8'
    } else {
        '9'
    }
}

pub proof fn lemma_digit_char_val(d: nat)
    requires
        d < 10,
    ensures
        is_digit_char(digit_char(d)),
        digit_val(digit_char(d)) == d,
{
}

/// The characters of the digit range `[lo, hi)` of `v`, most significant
/// first.
pub open spec fn digit_run_chars(v: Seq<u8>, lo: int, hi: int) -> Seq<char> {
    Seq::new((hi - lo) as nat, |i: int| digit_char(v[hi - 1 - i] as nat))
}

/// A digit range's characters denote the range's value.
pub proof fn lemma_digit_run_chars_val(v: Seq<u8>, lo: int, hi: int)
    requires
        0 <= lo <= hi <= v.len(),
        all_digit_values(v),
    ensures
        all_digit_chars(digit_run_chars(v, lo, hi)),
        digits_val(digit_run_chars(v, lo, hi)) == dec_val(v.subrange(lo, hi)),
    decreases hi - lo,
{
    let run = digit_run_chars(v, lo, hi);
    if lo == hi {
        assert(run =~= Seq::<char>::empty());
        assert(v.subrange(lo, hi) =~= Seq::<u8>::empty());
        lemma_dec_val_empty();
    } else {
        lemma_digit_run_chars_val(v, lo + 1, hi);
        let inner = digit_run_chars(v, lo + 1, hi);
        assert(run =~= inner.push(digit_char(v[lo] as nat)));
        assert(run.drop_last() =~= inner);
        assert(run.last() == digit_char(v[lo] as nat));
        lemma_digit_char_val(v[lo] as nat);
        assert(digits_val(run) == 10 * digits_val(inner) + digit_val(run.last()));
        let sub = v.subrange(lo, hi);
        assert(sub.len() > 0 && sub[0] == v[lo]);
        assert(sub.drop_first() =~= v.subrange(lo + 1, hi));
        assert(dec_val(sub) == v[lo] as nat + 10 * dec_val(v.subrange(lo + 1, hi)));
        assert forall|i: int| 0 <= i < run.len() implies is_digit_char(run[i]) by {
            lemma_digit_char_val(v[hi - 1 - i] as nat);
        }
    }
}

/// A sequence of zero digits denotes zero.
pub proof fn lemma_dec_val_all_zero(s: Seq<u8>)
    requires
        forall|i: int| 0 <= i < s.len() ==> s[i] == 0,
    ensures
        dec_val(s) == 0,
    decreases s.len(),
{
    if s.len() > 0 {
        lemma_dec_val_all_zero(s.drop_first());
    }
}

/// The value a plain decimal string denotes at precision `p`: an optional
/// whole digit run, at most one `.`, and a fractional digit run no longer
/// than `p`, scaled so that the result counts units of `10^-p`.
pub open spec fn decimal_value_chars(s: Seq<char>, p: nat) -> Option<nat> {
    match spec_find(s, '.') {
        None => if all_digit_chars(s) {
            Some(digits_val(s) * pow10(p))
        } else {
            None
        },
        Some(i) => {
            let whole = s.take(i);
            let frac = s.skip(i + 1);
            if all_digit_chars(whole) && all_digit_chars(frac) && frac.len() <= p {
                Some(digits_val(whole) * pow10(p) + digits_val(frac) * pow10((p - frac.len()) as nat))
            } else {
                None
            }
        },
    }
}

/// The canonical minimal decimal form: a whole part without leading zeros
/// (a single `0` stands for an empty one), and a fractional part that is
/// absent rather than empty and carries no trailing zeros.
pub open spec fn canonical_decimal_chars(s: Seq<char>) -> bool {
    match spec_find(s, '.') {
        None => all_digit_chars(s) && s.len() > 0 && (s.len() == 1 || s[0] != '0'),
        Some(i) => {
            &&& all_digit_chars(s.take(i))
            &&& all_digit_chars(s.skip(i + 1))
            &&& i > 0
            &&& (i == 1 || s[0] != '0')
            &&& i + 1 < s.len()
            &&& s.last() != '0'
        },
    }
}

/// Decimal digit value of a character, or `None` when it is not a digit.
pub fn char_digit(c: char) -> (r: Option<u8>)
    ensures
        r is Some <==> is_digit_char(c),
        match r {
            Some(d) => d < 10 && d as nat == digit_val(c),
            None => true,
        },
{
    let u = c as u32;
    if 48 <= u && u <= 57 {
        Some((u - 48) as u8)
    } else {
        None
    }
}

/// Decimal characters of `x`, most significant first; empty for zero.
pub open spec fn spec_nat_chars(x: nat) -> Seq<char>
    decreases x,
    via spec_nat_chars_decreases
{
    if x == 0 {
        Seq::empty()
    } else {
        spec_nat_chars(x / 10) + seq![digit_char(x % 10)]
    }
}

#[via_fn]
proof fn spec_nat_chars_decreases(x: nat) {
    if x > 0 {
        assert(x / 10 < x) by (nonlinear_arith)
            requires
                x > 0,
        ;
    }
}

/// Decimal rendering of `x`: its characters, with zero written `0`.
pub open spec fn spec_nat_string(x: nat) -> Seq<char> {
    if x == 0 {
        seq!['0']
    } else {
        spec_nat_chars(x)
    }
}

/// A canonical digit sequence renders to the decimal characters of its
/// value.
pub proof fn lemma_digit_run_is_nat_chars(v: Seq<u8>)
    requires
        all_digit_values(v),
        no_leading_zero(v),
    ensures
        digit_run_chars(v, 0, v.len() as int) == spec_nat_chars(dec_val(v)),
    decreases v.len(),
{
    if v.len() == 0 {
        assert(digit_run_chars(v, 0, 0) =~= Seq::<char>::empty());
    } else {
        let n = dec_val(v);
        let m = dec_val(v.drop_first());
        assert(n == v[0] as nat + 10 * m);
        assert(n % 10 == v[0] as nat && n / 10 == m) by (nonlinear_arith)
            requires
                n == v[0] as nat + 10 * m,
                v[0] < 10,
        ;
        lemma_dec_val_zero_iff_empty(v);
        assert(n != 0);
        assert(no_leading_zero(v.drop_first()));
        lemma_digit_run_is_nat_chars(v.drop_first());
        let len = v.len() as int;
        assert(digit_run_chars(v.drop_first(), 0, len - 1) =~= digit_run_chars(v, 1, len));
        assert(digit_run_chars(v, 0, len) =~= digit_run_chars(v, 1, len) + seq![
            digit_char(v[0] as nat),
        ]);
        assert(spec_nat_chars(n) == spec_nat_chars(m) + seq![digit_char(n % 10)]);
    }
}

/// Decimal rendering of an unsigned 64-bit value.
pub fn u64_to_string(x: u64) -> (r: String)
    ensures
        r@ == spec_nat_string(x as nat),
{
    if x == 0 {
        proof {
            reveal_strlit("0");
            assert("0"@ =~= seq!['0']);
        }
        return "0".to_owned();
    }
    let mut v: Vec<u8> = Vec::new();
    let mut y = x;
    proof {
        lemma_dec_val_empty();
        assert((y as nat) * pow10(0nat) == y as nat) by (nonlinear_arith)
            requires
                pow10(0nat) == 1,
        ;
    }
    while y > 0
        invariant
            all_digit_values(v@),
            no_leading_zero(v@) || y > 0,
            dec_val(v@) + (y as nat) * pow10(v@.len()) == x as nat,
            y == 0 ==> v@.len() > 0 && v@.last() != 0,
        decreases y,
    {
        let d = (y % 10) as u8;
        proof {
            lemma_dec_val_push(v@, d);
            let len = v@.len();
            assert(pow10(len + 1) == 10 * pow10(len));
            assert((d as nat) * pow10(len) + ((y / 10) as nat) * (10 * pow10(len)) == (y as nat)
                * pow10(len)) by (nonlinear_arith)
                requires
                    d == y % 10,
                    y >= 0,
            ;
        }
        v.push(d);
        y = y / 10;
    }
    let mut out = String::new();
    append_digit_chars(&mut out, &v, 0, v.len());
    proof {
        assert(no_leading_zero(v@));
        lemma_digit_run_is_nat_chars(v@);
        assert((0 as nat) * pow10(v@.len()) == 0) by (nonlinear_arith);
        assert(dec_val(v@) == x as nat);
        assert(out@ =~= digit_run_chars(v@, 0, v@.len() as int));
    }
    out
}

/// Decimal rendering of `x`, a leading `-` for a negative value.
pub open spec fn spec_i64_string(x: int) -> Seq<char> {
    if x >= 0 {
        spec_nat_string(x as nat)
    } else {
        seq!['-'] + spec_nat_string((-x) as nat)
    }
}

/// Decimal rendering of a signed 64-bit value.
pub fn i64_to_string(x: i64) -> (r: String)
    ensures
        r@ == spec_i64_string(x as int),
{
    if x >= 0 {
        u64_to_string(x as u64)
    } else {
        let m = (-(x as i128)) as u64;
        let mut out = "-".to_owned();
        let tail = u64_to_string(m);
        out.append(tail.as_str());
        proof {
            reveal_strlit("-");
            assert("-"@ =~= seq!['-']);
            assert(out@ =~= seq!['-'] + spec_nat_string(m as nat));
        }
        out
    }
}

/// The one-character string of a decimal digit value.
fn digit_str(d: u8) -> (r: &'static str)
    requires
        d < 10,
    ensures
        r@ =~= seq![digit_char(d as nat)],
{
    proof {
        reveal_strlit("0");
        reveal_strlit("1");
        reveal_strlit("2");
        reveal_strlit("3");
        reveal_strlit("4");
        reveal_strlit("5");
        reveal_strlit("6");
        reveal_strlit("7");
        reveal_strlit("8");
        reveal_strlit("9");
    }
    match d {
        0 => "0",
        1 => "1",
        2 => "2",
        3 => "3",
        4 => "4",
        5 => "5",
        6 => "6",
        7 => "7",
        8 => "8",
        _ => "9",
    }
}

/// Append the digits of `v[lo..hi]`, most significant first.
fn append_digit_chars(out: &mut String, v: &Vec<u8>, lo: usize, hi: usize)
    requires
        lo <= hi <= v@.len(),
        all_digit_values(v@),
    ensures
        final(out)@ == old(out)@ + digit_run_chars(v@, lo as int, hi as int),
{
    let mut i = hi;
    proof {
        assert(digit_run_chars(v@, hi as int, hi as int) =~= Seq::<char>::empty());
        assert(out@ =~= old(out)@ + digit_run_chars(v@, hi as int, hi as int));
    }
    while i > lo
        invariant
            lo <= i <= hi <= v@.len(),
            all_digit_values(v@),
            out@ == old(out)@ + digit_run_chars(v@, i as int, hi as int),
        decreases i,
    {
        let s = digit_str(v[i - 1]);
        out.append(s);
        proof {
            assert(out@ =~= old(out)@ + digit_run_chars(v@, i - 1, hi as int));
        }
        i = i - 1;
    }
}

/// An amount of a coin in its smallest indivisible unit: an unsigned
/// integer of arbitrary width, viewed as the natural number it denotes.
#[derive(Debug)]
pub struct ScaledAmount {
    digits: Vec<u8>,
}

impl View for ScaledAmount {
    type V = nat;

    closed spec fn view(&self) -> nat {
        dec_val(self.digits@)
    }
}

impl ScaledAmount {
    #[verifier::type_invariant]
    spec fn wf(self) -> bool {
        all_digit_values(self.digits@) && no_leading_zero(self.digits@)
    }

    /// The zero amount.
    pub fn zero() -> (r: ScaledAmount)
        ensures
            r@ == 0,
    {
        let digits: Vec<u8> = Vec::new();
        proof {
            lemma_dec_val_empty();
        }
        ScaledAmount { digits }
    }

    /// Whether this amount is exactly zero.
    pub fn is_zero(&self) -> (r: bool)
        ensures
            r == (self@ == 0),
    {
        proof {
            use_type_invariant(self);
            lemma_dec_val_zero_iff_empty(self.digits@);
        }
        self.digits.len() == 0
    }

    /// The exact sum of two amounts; never wraps.
    pub fn plus(&self, other: &ScaledAmount) -> (r: ScaledAmount)
        ensures
            r@ == self@ + other@,
    {
        proof {
            use_type_invariant(self);
            use_type_invariant(other);
        }
        let a = &self.digits;
        let b = &other.digits;
        let n = if a.len() >= b.len() {
            a.len()
        } else {
            b.len()
        };
        let mut out: Vec<u8> = Vec::new();
        let mut carry: u8 = 0;
        let mut i: usize = 0;
        proof {
            lemma_dec_val_empty();
        }
        while i < n
            invariant
                i <= n,
                n == if a@.len() >= b@.len() {
                    a@.len()
                } else {
                    b@.len()
                },
                all_digit_values(a@),
                all_digit_values(b@),
                out@.len() == i,
                all_digit_values(out@),
                carry <= 1,
                dec_val(out@) + (carry as nat) * pow10(i as nat) == dec_val(
                    a@.take(if i <= a@.len() {
                        i as int
                    } else {
                        a@.len() as int
                    }),
                ) + dec_val(
                    b@.take(if i <= b@.len() {
                        i as int
                    } else {
                        b@.len() as int
                    }),
                ),
            decreases n - i,
        {
            let ghost ai = if i <= a@.len() {
                i as int
            } else {
                a@.len() as int
            };
            let ghost bi = if i <= b@.len() {
                i as int
            } else {
                b@.len() as int
            };
            let da: u8 = if i < a.len() {
                a[i]
            } else {
                0
            };
            let db: u8 = if i < b.len() {
                b[i]
            } else {
                0
            };
            let sum: u8 = da + db + carry;
            let dg: u8 = sum % 10;
            let nc: u8 = sum / 10;
            proof {
                let ghost ai2 = if i + 1 <= a@.len() {
                    i + 1
                } else {
                    a@.len() as int
                };
                let ghost bi2 = if i + 1 <= b@.len() {
                    i + 1
                } else {
                    b@.len() as int
                };
                if i < a@.len() {
                    assert(a@.take(ai2) =~= a@.take(ai).push(a@[i as int]));
                    lemma_dec_val_push(a@.take(ai), a@[i as int]);
                } else {
                    assert(a@.take(ai2) =~= a@.take(ai));
                }
                if i < b@.len() {
                    assert(b@.take(bi2) =~= b@.take(bi).push(b@[i as int]));
                    lemma_dec_val_push(b@.take(bi), b@[i as int]);
                } else {
                    assert(b@.take(bi2) =~= b@.take(bi));
                }
                lemma_dec_val_push(out@, dg);
                assert(dg + 10 * nc == sum);
                let p = pow10(i as nat);
                assert(pow10((i + 1) as nat) == 10 * p);
                assert((dg as nat) * p + (nc as nat) * (10 * p) == (sum as nat) * p
                    - (carry as nat) * p + (carry as nat) * p) by (nonlinear_arith)
                    requires
                        dg + 10 * nc == sum,
                ;
                assert((sum as nat) * p == (da as nat) * p + (db as nat) * p + (carry as nat) * p)
                    by (nonlinear_arith)
                    requires
                        sum == da + db + carry,
                ;
            }
            out.push(dg);
            carry = nc;
            i = i + 1;
        }
        proof {
            assert(a@.take(a@.len() as int) =~= a@);
            assert(b@.take(b@.len() as int) =~= b@);
        }
        if carry > 0 {
            proof {
                lemma_dec_val_push(out@, carry);
            }
            out.push(carry);
        }
        // drop any high-order zero digits so the form stays canonical
        while out.len() > 0 && out[out.len() - 1] == 0
            invariant
                all_digit_values(out@),
                dec_val(out@) == self@ + other@,
            decreases out@.len(),
        {
            proof {
                lemma_dec_val_drop_last_zero(out@);
            }
            out.pop();
        }
        ScaledAmount { digits: out }
    }

    /// Exact comparison: `self <= other`.
    pub fn le(&self, other: &ScaledAmount) -> (r: bool)
        ensures
            r == (self@ <= other@),
    {
        proof {
            use_type_invariant(self);
            use_type_invariant(other);
        }
        let a = &self.digits;
        let b = &other.digits;
        if a.len() < b.len() {
            proof {
                lemma_dec_val_upper(a@);
                lemma_dec_val_lower(b@);
                lemma_pow10_increases(a@.len(), (b@.len() - 1) as nat);
            }
            return true;
        }
        if a.len() > b.len() {
            proof {
                lemma_dec_val_upper(b@);
                lemma_dec_val_lower(a@);
                lemma_pow10_increases(b@.len(), (a@.len() - 1) as nat);
            }
            return false;
        }
        let mut i: usize = a.len();
        while i > 0
            invariant
                i <= a@.len(),
                a@.len() == b@.len(),
                a@ == self.digits@,
                b@ == other.digits@,
                all_digit_values(a@),
                all_digit_values(b@),
                forall|j: int| i <= j < a@.len() ==> a@[j] == b@[j],
            decreases i,
        {
            if a[i - 1] < b[i - 1] {
                proof {
                    lemma_dec_val_cmp_at(a@, b@, i - 1);
                }
                return true;
            }
            if a[i - 1] > b[i - 1] {
                proof {
                    lemma_dec_val_cmp_at(b@, a@, i - 1);
                }
                return false;
            }
            i = i - 1;
        }
        proof {
            assert(a@ =~= b@);
        }
        true
    }

    /// Parse the characters of `s` between `from` and `to` as a run of
    /// decimal digits, most significant first. Leading zeros are accepted;
    /// an empty run denotes zero; any other character rejects the run.
    pub fn parse_digit_run(s: &str, from: usize, to: usize) -> (r: Option<ScaledAmount>)
        requires
            from <= to <= s@.len(),
        ensures
            match r {
                Some(a) => all_digit_chars(s@.subrange(from as int, to as int)) && a@ == digits_val(
                    s@.subrange(from as int, to as int),
                ),
                None => !all_digit_chars(s@.subrange(from as int, to as int)),
            },
    {
        let ghost run = s@.subrange(from as int, to as int);
        let mut i = from;
        while i < to
            invariant
                from <= i <= to <= s@.len(),
                forall|j: int| from <= j < i ==> is_digit_char(s@[j]),
            decreases to - i,
        {
            let c = s.get_char(i);
            if char_digit(c).is_none() {
                proof {
                    assert(s@.subrange(from as int, to as int)[i - from] == s@[i as int]);
                }
                return None;
            }
            i = i + 1;
        }
        proof {
            assert forall|j: int| 0 <= j < run.len() implies is_digit_char(run[j]) by {
                assert(run[j] == s@[j + from]);
            }
        }
        let mut v: Vec<u8> = Vec::new();
        let mut k = to;
        proof {
            lemma_dec_val_empty();
            assert(s@.subrange(to as int, to as int) =~= Seq::<char>::empty());
        }
        while k > from
            invariant
                from <= k <= to <= s@.len(),
                forall|j: int| from <= j < to ==> is_digit_char(s@[j]),
                v@.len() == to - k,
                all_digit_values(v@),
                dec_val(v@) == digits_val(s@.subrange(k as int, to as int)),
            decreases k - from,
        {
            let c = s.get_char(k - 1);
            let d = match char_digit(c) {
                Some(d) => d,
                None => {
                    proof {
                        assert(is_digit_char(s@[k - 1]));
                    }
                    // a digit was already seen at this position
                    return None;
                },
            };
            proof {
                let sub = s@.subrange(k - 1, to as int);
                assert(sub.len() > 0 && sub[0] == s@[k - 1]);
                assert(sub.drop_first() =~= s@.subrange(k as int, to as int));
                lemma_digits_val_prepend(sub);
                lemma_dec_val_push(v@, d);
            }
            v.push(d);
            k = k - 1;
        }
        proof {
            assert(s@.subrange(from as int, to as int) == run);
        }
        // drop any high-order zero digits so the form stays canonical
        while v.len() > 0 && v[v.len() - 1] == 0
            invariant
                run == s@.subrange(from as int, to as int),
                all_digit_values(v@),
                dec_val(v@) == digits_val(run),
            decreases v@.len(),
        {
            proof {
                lemma_dec_val_drop_last_zero(v@);
            }
            v.pop();
        }
        Some(ScaledAmount { digits: v })
    }

    /// Render this amount at `precision` fractional digits in the canonical
    /// minimal decimal form; the result re-parses to exactly this amount.
    pub fn to_decimal_string(&self, precision: u8) -> (r: String)
        ensures
            decimal_value_chars(r@, precision as nat) == Some(self@),
            canonical_decimal_chars(r@),
    {
        proof {
            use_type_invariant(self);
        }
        let p = precision as usize;
        // working copy, padded with high-order zeros to at least `p` digits
        let mut pv: Vec<u8> = Vec::new();
        let mut j: usize = 0;
        while j < self.digits.len()
            invariant
                j <= self.digits@.len(),
                pv@ =~= self.digits@.take(j as int),
            decreases self.digits@.len() - j,
        {
            pv.push(self.digits[j]);
            proof {
                assert(pv@ =~= self.digits@.take(j + 1));
            }
            j = j + 1;
        }
        proof {
            assert(self.digits@.take(self.digits@.len() as int) =~= self.digits@);
            assert(pv@ == self.digits@);
        }
        while pv.len() < p
            invariant
                all_digit_values(pv@),
                dec_val(pv@) == self@,
                self.digits@.len() <= pv@.len(),
                pv@.len() > self.digits@.len() ==> pv@.len() <= p,
                forall|i: int| 0 <= i < self.digits@.len() ==> pv@[i] == self.digits@[i],
                forall|i: int| self.digits@.len() <= i < pv@.len() ==> pv@[i] == 0,
            decreases p - pv@.len(),
        {
            proof {
                lemma_dec_val_push(pv@, 0);
            }
            pv.push(0);
        }
        let n = pv.len();
        proof {
            assert(p <= n);
            if n > p {
                assert(pv@.len() == self.digits@.len());
                assert(pv@ =~= self.digits@);
                assert(pv@[n - 1] != 0);
            }
        }
        let mut out = String::new();
        if n == p {
            let zs = digit_str(0);
            out.append(zs);
        } else {
            append_digit_chars(&mut out, &pv, p, n);
        }
        let ghost wchars = out@;
        proof {
            lemma_digit_run_chars_val(pv@, p as int, n as int);
            if n == p {
                assert(wchars =~= seq![digit_char(0)]);
                assert(wchars.drop_last() =~= Seq::<char>::empty());
                lemma_digit_char_val(0);
                assert(digits_val(wchars) == 10 * digits_val(wchars.drop_last()) + digit_val(
                    wchars.last(),
                ));
                assert(digits_val(wchars) == 0);
                assert(all_digit_chars(wchars));
                assert(pv@.subrange(p as int, n as int) =~= Seq::<u8>::empty());
                lemma_dec_val_empty();
            } else {
                assert(wchars =~= digit_run_chars(pv@, p as int, n as int));
                assert(wchars.len() == n - p);
                assert(wchars[0] == digit_char(pv@[n - 1] as nat));
                lemma_digit_char_val(pv@[n - 1] as nat);
                assert(digit_val(wchars[0]) != 0);
                assert(digit_val('0') == 0);
                assert(wchars[0] != '0');
            }
            assert(digits_val(wchars) == dec_val(pv@.subrange(p as int, n as int)));
            assert(wchars.len() >= 1);
            assert(wchars.len() == 1 || wchars[0] != '0');
            assert(all_digit_chars(wchars));
        }
        let mut t: usize = 0;
        while t < p && pv[t] == 0
            invariant
                t <= p <= pv@.len(),
                forall|j2: int| 0 <= j2 < t ==> pv@[j2] == 0,
            decreases p - t,
        {
            t = t + 1;
        }
        proof {
            // the value splits into the whole and fractional digit regions
            lemma_dec_val_split(pv@, p as int);
            assert(pv@.skip(p as int) =~= pv@.subrange(p as int, n as int));
            lemma_dec_val_split(pv@.take(p as int), t as int);
            assert(pv@.take(p as int).take(t as int) =~= pv@.take(t as int));
            assert(pv@.take(p as int).skip(t as int) =~= pv@.subrange(t as int, p as int));
            lemma_dec_val_all_zero(pv@.take(t as int));
            assert(dec_val(pv@.take(p as int)) == pow10(t as nat) * dec_val(
                pv@.subrange(t as int, p as int),
            ));
            assert(self@ == pow10(t as nat) * dec_val(pv@.subrange(t as int, p as int)) + pow10(
                p as nat,
            ) * dec_val(pv@.subrange(p as int, n as int)));
        }
        if t == p {
            proof {
                lemma_dec_val_all_zero(pv@.take(p as int));
                assert(self@ == pow10(p as nat) * dec_val(pv@.subrange(p as int, n as int)) + pow10(
                    t as nat,
                ) * 0) by (nonlinear_arith)
                    requires
                        self@ == pow10(t as nat) * dec_val(pv@.subrange(t as int, p as int)) + pow10(
                            p as nat,
                        ) * dec_val(pv@.subrange(p as int, n as int)),
                        dec_val(pv@.subrange(t as int, p as int)) == 0,
                ;
                assert forall|j2: int| 0 <= j2 < out@.len() implies out@[j2] != '.' by {
                    assert(is_digit_char(out@[j2]));
                    assert('.' as int == 46);
                }
                lemma_spec_find_absent(out@, '.');
                assert(digits_val(out@) * pow10(precision as nat) == pow10(precision as nat)
                    * dec_val(pv@.subrange(p as int, n as int))) by (nonlinear_arith)
                    requires
                        digits_val(out@) == dec_val(pv@.subrange(p as int, n as int)),
                ;
            }
            return out;
        }
        proof {
            reveal_strlit(".");
        }
        out.append(".");
        let ghost dchars = wchars + seq!['.'];
        proof {
            assert("."@ =~= seq!['.']) by {
                reveal_strlit(".");
            }
            assert(out@ =~= dchars);
        }
        append_digit_chars(&mut out, &pv, t, p);
        proof {
            let fchars = digit_run_chars(pv@, t as int, p as int);
            lemma_digit_run_chars_val(pv@, t as int, p as int);
            assert(out@ =~= wchars + seq!['.'] + fchars);
            let wlen = wchars.len() as int;
            assert(out@[wlen] == '.');
            assert forall|j2: int| 0 <= j2 < wlen implies out@[j2] != '.' by {
                assert(out@[j2] == wchars[j2]);
                assert(is_digit_char(wchars[j2]));
                assert('.' as int == 46);
            }
            lemma_spec_find_is(out@, '.', wlen);
            assert(out@.take(wlen) =~= wchars);
            assert(out@.skip(wlen + 1) =~= fchars);
            assert(fchars.len() == p - t);
            // fractional region value at its power of ten
            assert(digits_val(fchars) == dec_val(pv@.subrange(t as int, p as int)));
            assert((precision as nat - fchars.len()) as nat == t as nat);
            assert(digits_val(wchars) * pow10(precision as nat) + digits_val(fchars) * pow10(
                t as nat,
            ) == self@) by (nonlinear_arith)
                requires
                    self@ == pow10(t as nat) * dec_val(pv@.subrange(t as int, p as int)) + pow10(
                        precision as nat,
                    ) * dec_val(pv@.subrange(p as int, n as int)),
                    digits_val(wchars) == dec_val(pv@.subrange(p as int, n as int)),
                    digits_val(fchars) == dec_val(pv@.subrange(t as int, p as int)),
            ;
            // canonical: the fractional part ends in its lowest nonzero digit
            assert(pv@[t as int] != 0);
            assert(out@.last() == fchars.last());
            assert(fchars.last() == digit_char(pv@[t as int] as nat));
            lemma_digit_char_val(pv@[t as int] as nat);
            assert(digit_val('0') == 0);
            assert(out@.last() != '0');
            assert(wlen + 1 < out@.len());
        }
        out
    }

    /// Render this amount as the plain decimal integer string that request
    /// payloads carry.
    pub fn to_integer_string(&self) -> (r: String)
        ensures
            r@ == spec_nat_string(self@),
    {
        proof {
            use_type_invariant(self);
        }
        if self.digits.len() == 0 {
            proof {
                reveal_strlit("0");
                assert("0"@ =~= seq!['0']);
            }
            return "0".to_owned();
        }
        let mut out = String::new();
        append_digit_chars(&mut out, &self.digits, 0, self.digits.len());
        proof {
            lemma_digit_run_is_nat_chars(self.digits@);
            lemma_dec_val_zero_iff_empty(self.digits@);
            assert(out@ =~= digit_run_chars(self.digits@, 0, self.digits@.len() as int));
        }
        out
    }

    /// The exact product `self * 10^k`; never wraps.
    pub fn times_pow10(&self, k: usize) -> (r: ScaledAmount)
        ensures
            r@ == self@ * pow10(k as nat),
    {
        proof {
            use_type_invariant(self);
        }
        if self.digits.len() == 0 {
            proof {
                assert(0 * pow10(k as nat) == 0) by (nonlinear_arith);
            }
            return ScaledAmount::zero();
        }
        let ghost z = Seq::new(k as nat, |i: int| 0u8);
        let mut out: Vec<u8> = Vec::new();
        let mut i: usize = 0;
        while i < k
            invariant
                i <= k,
                out@.len() == i,
                out@ =~= Seq::new(i as nat, |j: int| 0u8),
            decreases k - i,
        {
            out.push(0);
            proof {
                assert(out@ =~= Seq::new((i + 1) as nat, |j: int| 0u8));
            }
            i = i + 1;
        }
        let mut j: usize = 0;
        while j < self.digits.len()
            invariant
                j <= self.digits@.len(),
                out@ =~= z + self.digits@.take(j as int),
                z == Seq::new(k as nat, |i: int| 0u8),
            decreases self.digits@.len() - j,
        {
            out.push(self.digits[j]);
            proof {
                assert(out@ =~= z + self.digits@.take(j + 1));
            }
            j = j + 1;
        }
        proof {
            assert(self.digits@.take(self.digits@.len() as int) =~= self.digits@);
            assert(out@ =~= z + self.digits@);
            lemma_dec_val_zeros_prepend(k as nat, self.digits@);
            assert(pow10(k as nat) * dec_val(self.digits@) == dec_val(self.digits@) * pow10(
                k as nat,
            )) by (nonlinear_arith);
            assert(out@.len() == k + self.digits@.len());
            assert(out@.last() == self.digits@.last());
        }
        ScaledAmount { digits: out }
    }
}

} // verus!
