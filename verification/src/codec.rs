//! The fixed-width decimal digit codec: the mathematical model of digit
//! sequences and the lemmas that relate encoding and decoding.

use vstd::prelude::*;
use vstd::arithmetic::div_mod::lemma_fundamental_div_mod;

verus! {

/// `10^d`, the number of distinct identifiers of width `d`.
pub open spec fn pow10(d: nat) -> nat
    decreases d,
{
    if d == 0 {
        1
    } else {
        10 * pow10((d - 1) as nat)
    }
}

/// The width-`d` decimal digit sequence of `v`, most significant digit first.
/// Widths beyond the magnitude of `v` pad with leading zero digits.
pub open spec fn digits_of(v: nat, d: nat) -> Seq<u16>
    decreases d,
{
    if d == 0 {
        Seq::empty()
    } else {
        digits_of(v / 10, (d - 1) as nat).push((v % 10) as u16)
    }
}

/// The value a digit sequence denotes, leftmost digit most significant:
/// the left fold `acc = acc * 10 + digit`, with the empty sequence denoting 0.
pub open spec fn value_of(s: Seq<u16>) -> nat
    decreases s.len(),
{
    if s.len() == 0 {
        0
    } else {
        value_of(s.drop_last()) * 10 + (s.last() as nat)
    }
}

/// A digit sequence holds digits only: every element is at most 9.
pub open spec fn all_digits(s: Seq<u16>) -> bool {
    forall|i: int| 0 <= i < s.len() ==> s[i] <= 9
}

pub proof fn lemma_pow10_pos(d: nat)
    ensures
        pow10(d) >= 1,
    decreases d,
{
    if d > 0 {
        lemma_pow10_pos((d - 1) as nat);
    }
}

pub proof fn lemma_pow10_monotone(a: nat, b: nat)
    requires
        a <= b,
    ensures
        pow10(a) <= pow10(b),
    decreases b,
{
    if a < b {
        lemma_pow10_monotone(a, (b - 1) as nat);
        lemma_pow10_pos((b - 1) as nat);
    }
}

/// Encoding always produces exactly `d` digits, each at most 9.
pub proof fn lemma_digits_of_wf(v: nat, d: nat)
    ensures
        digits_of(v, d).len() == d,
        all_digits(digits_of(v, d)),
    decreases d,
{
    if d > 0 {
        lemma_digits_of_wf(v / 10, (d - 1) as nat);
    }
}

/// A sequence of `d` digits denotes a value below `10^d`.
pub proof fn lemma_value_of_bound(s: Seq<u16>)
    requires
        all_digits(s),
    ensures
        value_of(s) < pow10(s.len()),
    decreases s.len(),
{
    if s.len() > 0 {
        assert(all_digits(s.drop_last()));
        lemma_value_of_bound(s.drop_last());
    }
}

/// Codec round trip: decoding the width-`d` encoding of any `v < 10^d`
/// yields `v` back.
pub proof fn lemma_codec_round_trip(v: nat, d: nat)
    requires
        v < pow10(d),
    ensures
        value_of(digits_of(v, d)) == v,
    decreases d,
{
    if d == 0 {
        assert(v == 0);
    } else {
        let p = pow10((d - 1) as nat);
        lemma_pow10_pos((d - 1) as nat);
        assert(v / 10 < p) by (nonlinear_arith)
            requires
                v < 10 * p,
                p >= 1,
        ;
        lemma_codec_round_trip(v / 10, (d - 1) as nat);
        lemma_digits_of_wf(v / 10, (d - 1) as nat);
        let s = digits_of(v, d);
        assert(s.drop_last() =~= digits_of(v / 10, (d - 1) as nat));
        lemma_fundamental_div_mod(v as int, 10);
    }
}

/// The value of a proper prefix never exceeds the value of the whole sequence.
pub proof fn lemma_value_of_prefix(s: Seq<u16>, k: int)
    requires
        0 <= k <= s.len(),
    ensures
        value_of(s.take(k)) <= value_of(s),
    decreases s.len() - k,
{
    if k == s.len() {
        assert(s.take(k) =~= s);
    } else {
        assert(s.take(k + 1).drop_last() =~= s.take(k));
        assert(s.take(k + 1).last() == s[k]);
        lemma_value_of_prefix(s, k + 1);
    }
}

} // verus!
