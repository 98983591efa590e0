//! The permutation sequence: a counter-driven generator that yields each
//! integer in `[0, 10^d)` exactly once, in the order given by FF1 encryption
//! of the counter's fixed-width decimal encoding.

use vstd::prelude::*;
use crate::codec::{
    pow10, digits_of, value_of, all_digits, lemma_pow10_pos, lemma_pow10_monotone,
    lemma_value_of_prefix, lemma_value_of_bound, lemma_digits_of_wf,
};
use crate::permute::{IdError, ff1_permuted, ff1_encrypt_digits};

verus! {

/// The big-endian byte encoding of a 64-bit tweak value.
pub open spec fn be_bytes_of(t: u64) -> Seq<u8> {
    seq![
        (t >> 56) as u8,
        (t >> 48) as u8,
        (t >> 40) as u8,
        (t >> 32) as u8,
        (t >> 24) as u8,
        (t >> 16) as u8,
        (t >> 8) as u8,
        t as u8,
    ]
}

/// A generator that yields the decimal numbers in `[0, 10^digits)` in a
/// key-dependent order, each exactly once.
///
/// Numbers are produced with the FF1 format-preserving encryption algorithm:
/// each step encodes the current counter value as a fixed-width digit
/// sequence, encrypts it under the key and tweak, and decodes the result.
pub struct RandomIdGenerator {
    key: [u8; 32],
    digits: u16,
    next: u16,
    tweak: Vec<u8>,
}

impl RandomIdGenerator {
    /// The 256-bit key the generator was built with.
    pub closed spec fn key_view(&self) -> Seq<u8> {
        self.key@
    }

    /// The tweak bytes the generator was built with.
    pub closed spec fn tweak_view(&self) -> Seq<u8> {
        self.tweak@
    }

    /// The configured digit width `d`.
    pub closed spec fn width(&self) -> nat {
        self.digits as nat
    }

    /// The next counter value to transform, in `[0, 10^d]`.
    pub closed spec fn cursor(&self) -> nat {
        self.next as nat
    }

    /// The domain size `N = 10^d`.
    pub open spec fn domain_size(&self) -> nat {
        pow10(self.width())
    }

    /// Validity: the width is positive and small enough that `10^d` fits the
    /// counter type, and the cursor never runs past the domain.
    pub open spec fn wf(&self) -> bool {
        &&& 1 <= self.width() <= 4
        &&& self.cursor() <= self.domain_size()
    }

    /// The generator is exhausted once the cursor has reached the domain size.
    pub open spec fn exhausted(&self) -> bool {
        self.cursor() == self.domain_size()
    }

    /// The identifier yielded at position `i` of the sequence: the decoded
    /// FF1 encryption of the width-`d` encoding of `i`.
    pub open spec fn id_at(&self, i: nat) -> nat {
        value_of(ff1_permuted(self.key_view(), self.tweak_view(), digits_of(i, self.width())))
    }

    /// Builds a generator over `[0, 10^digits)` for the given key and tweak,
    /// with the cursor at 0.
    pub fn new(key: [u8; 32], tweak: u64, digits: u16) -> (r: Self)
        requires
            1 <= digits <= 4,
        ensures
            r.wf(),
            r.key_view() == key@,
            r.tweak_view() == be_bytes_of(tweak),
            r.width() == digits as nat,
            r.cursor() == 0,
    {
        let mut tweak_bytes: Vec<u8> = Vec::new();
        tweak_bytes.push(#[verifier::truncate] ((tweak >> 56) as u8));
        tweak_bytes.push(#[verifier::truncate] ((tweak >> 48) as u8));
        tweak_bytes.push(#[verifier::truncate] ((tweak >> 40) as u8));
        tweak_bytes.push(#[verifier::truncate] ((tweak >> 32) as u8));
        tweak_bytes.push(#[verifier::truncate] ((tweak >> 24) as u8));
        tweak_bytes.push(#[verifier::truncate] ((tweak >> 16) as u8));
        tweak_bytes.push(#[verifier::truncate] ((tweak >> 8) as u8));
        tweak_bytes.push(#[verifier::truncate] (tweak as u8));
        proof {
            assert(tweak_bytes@ =~= be_bytes_of(tweak));
        }
        Self { key, tweak: tweak_bytes, digits, next: 0 }
    }

    /// Splits a decimal number into its `digits` decimal digits, most
    /// significant first, with leading zeros where the number is short.
    pub fn split_number_digits(&self, number: u16) -> (r: Vec<u16>)
        requires
            self.wf(),
            (number as nat) < self.domain_size(),
        ensures
            r@ == digits_of(number as nat, self.width()),
    {
        let d = self.digits;
        let mut digits: Vec<u16> = Vec::new();
        let mut n = number;
        while n > 0
            invariant
                digits@.len() <= d as nat,
                (n as nat) < pow10((d as nat - digits@.len()) as nat),
                digits_of(number as nat, d as nat) == digits_of(
                    n as nat,
                    (d as nat - digits@.len()) as nat,
                ) + digits@.reverse(),
            decreases n,
        {
            proof {
                let left = (d as nat - digits@.len()) as nat;
                if left == 0 {
                    assert(pow10(0) == 1);
                    assert(false);
                }
                let p = pow10((left - 1) as nat);
                lemma_pow10_pos((left - 1) as nat);
                assert(n as nat / 10 < p) by (nonlinear_arith)
                    requires
                        (n as nat) < 10 * p,
                        p >= 1,
                ;
                assert(digits_of(n as nat, left) == digits_of(n as nat / 10, (left - 1) as nat).push(
                    (n % 10) as u16,
                ));
                assert((digits@.push((n % 10) as u16)).reverse() =~= seq![(n % 10) as u16]
                    + digits@.reverse());
                assert(digits_of(n as nat / 10, (left - 1) as nat).push((n % 10) as u16)
                    + digits@.reverse() =~= digits_of(n as nat / 10, (left - 1) as nat) + (
                digits@.push((n % 10) as u16)).reverse());
            }
            digits.push(n % 10);
            n = n / 10;
        }
        while digits.len() < d as usize
            invariant
                digits@.len() <= d as nat,
                digits_of(number as nat, d as nat) == digits_of(
                    0,
                    (d as nat - digits@.len()) as nat,
                ) + digits@.reverse(),
            decreases d as int - digits@.len(),
        {
            proof {
                let left = (d as nat - digits@.len()) as nat;
                assert(digits_of(0, left) == digits_of(0, (left - 1) as nat).push(0u16));
                assert((digits@.push(0u16)).reverse() =~= seq![0u16] + digits@.reverse());
                assert(digits_of(0, (left - 1) as nat).push(0u16) + digits@.reverse()
                    =~= digits_of(0, (left - 1) as nat) + (digits@.push(0u16)).reverse());
            }
            digits.push(0);
        }
        proof {
            assert(digits_of(number as nat, d as nat) =~= digits@.reverse());
        }
        let mut out: Vec<u16> = Vec::new();
        let mut i = digits.len();
        while i > 0
            invariant
                i <= digits@.len(),
                out@.len() == digits@.len() - i,
                forall|j: int| 0 <= j < out@.len() ==> out@[j] == digits@[digits@.len() - 1 - j],
            decreases i,
        {
            i = i - 1;
            let x = digits[i];
            out.push(x);
        }
        proof {
            assert(out@ =~= digits@.reverse());
        }
        out
    }

    /// Folds a digit sequence back into the number it denotes, leftmost digit
    /// most significant: the exact left fold `acc = acc * 10 + digit`, so the
    /// empty slice yields 0.
    pub fn join_number_digits(digits: &[u16]) -> (r: u16)
        requires
            all_digits(digits@),
            value_of(digits@) <= u16::MAX,
        ensures
            r as nat == value_of(digits@),
    {
        let mut acc: u16 = 0;
        let mut i: usize = 0;
        while i < digits.len()
            invariant
                i <= digits@.len(),
                acc as nat == value_of(digits@.take(i as int)),
                all_digits(digits@),
                value_of(digits@) <= u16::MAX,
            decreases digits@.len() - i,
        {
            proof {
                assert(digits@.take(i + 1).drop_last() =~= digits@.take(i as int));
                assert(digits@.take(i + 1).last() == digits@[i as int]);
                lemma_value_of_prefix(digits@, i + 1);
            }
            acc = acc * 10 + digits[i];
            i = i + 1;
        }
        proof {
            assert(digits@.take(digits@.len() as int) =~= digits@);
        }
        acc
    }

    /// The domain size `N = 10^digits`.
    pub fn len(&self) -> (r: u16)
        requires
            self.wf(),
        ensures
            r as nat == self.domain_size(),
    {
        let mut r: u16 = 1;
        let mut i: u16 = 0;
        while i < self.digits
            invariant
                i <= self.digits,
                self.digits <= 4,
                r as nat == pow10(i as nat),
            decreases self.digits - i,
        {
            proof {
                lemma_pow10_monotone(i as nat + 1, 4);
                reveal_with_fuel(pow10, 5);
            }
            r = r * 10;
            i = i + 1;
        }
        r
    }

    /// How many identifiers are still to come: `N - cursor`.
    pub fn remaining(&self) -> (r: usize)
        requires
            self.wf(),
        ensures
            r == self.domain_size() - self.cursor(),
    {
        (self.len() - self.next) as usize
    }

    /// Draws the next identifier: encodes the cursor, encrypts the digit
    /// sequence under the key and tweak, decodes the result and advances the
    /// cursor by one. Once the cursor has reached the domain size the
    /// sequence is exhausted for good and every further call yields `None`.
    /// A capability failure leaves the cursor where it was.
    pub fn next(&mut self) -> (r: Result<Option<u16>, IdError>)
        requires
            old(self).wf(),
        ensures
            final(self).wf(),
            final(self).key_view() == old(self).key_view(),
            final(self).tweak_view() == old(self).tweak_view(),
            final(self).width() == old(self).width(),
            old(self).exhausted() ==> r == Ok::<Option<u16>, IdError>(None) && final(self).cursor() == old(self).cursor(),
            !old(self).exhausted() ==> final(self).cursor() == old(self).cursor() + 1 && (
            r matches Ok(o) && o matches Some(v) && v as nat == old(self).id_at(
                old(self).cursor(),
            ) && (v as nat) < old(self).domain_size()),
    {
        let total = self.len();
        if self.next >= total {
            return Ok(None);
        }
        let input = self.split_number_digits(self.next);
        proof {
            lemma_digits_of_wf(self.next as nat, self.width());
        }
        let output = match ff1_encrypt_digits(&self.key, self.tweak.as_slice(), input.as_slice()) {
            Ok(out) => out,
            Err(e) => return Err(e),
        };
        proof {
            lemma_value_of_bound(output@);
            lemma_pow10_monotone(self.width(), 4);
            reveal_with_fuel(pow10, 5);
        }
        let value = Self::join_number_digits(output.as_slice());
        self.next = self.next + 1;
        Ok(Some(value))
    }

    /// Skips `n` positions beyond the current one and draws the identifier
    /// there, exactly as if `next` had been called `n + 1` times and only the
    /// last result kept; the skipped values are never computed. When fewer
    /// than `n + 1` identifiers remain, yields `None` and leaves the cursor
    /// untouched rather than partially advanced.
    pub fn nth(&mut self, n: usize) -> (r: Result<Option<u16>, IdError>)
        requires
            old(self).wf(),
        ensures
            final(self).wf(),
            final(self).key_view() == old(self).key_view(),
            final(self).tweak_view() == old(self).tweak_view(),
            final(self).width() == old(self).width(),
            old(self).cursor() + n >= old(self).domain_size() ==> r == Ok::<
                Option<u16>,
                IdError,
            >(None) && final(self).cursor() == old(self).cursor(),
            old(self).cursor() + n < old(self).domain_size() ==> final(self).cursor() == old(self).cursor() + n + 1 && (r matches Ok(o) && o matches Some(v) && v as nat == old(self).id_at((old(self).cursor() + n) as nat) && (v as nat) < old(self).domain_size()),
    {
        let total = self.len();
        let rem = (total - self.next) as usize;
        if n >= rem {
            return Ok(None);
        }
        self.next = self.next + (n as u16);
        self.next()
    }

    /// Jumps straight to the final identifier of the sequence: yields the
    /// value at position `N - 1` and leaves the generator exhausted, without
    /// computing the values in between. Yields `None` when already exhausted.
    pub fn last(&mut self) -> (r: Result<Option<u16>, IdError>)
        requires
            old(self).wf(),
        ensures
            final(self).wf(),
            final(self).key_view() == old(self).key_view(),
            final(self).tweak_view() == old(self).tweak_view(),
            final(self).width() == old(self).width(),
            old(self).exhausted() ==> r == Ok::<Option<u16>, IdError>(None) && final(self).cursor() == old(self).cursor(),
            !old(self).exhausted() ==> final(self).exhausted() && (r matches Ok(o) && o matches Some(
                v,
            ) && v as nat == old(self).id_at((old(self).domain_size() - 1) as nat) && (
            v as nat) < old(self).domain_size()),
    {
        let total = self.len();
        if self.next >= total {
            return Ok(None);
        }
        self.next = total - 1;
        self.next()
    }

    /// Reports how many identifiers were left and consumes them all as a side
    /// effect: afterwards the generator is exhausted.
    pub fn count(&mut self) -> (r: usize)
        requires
            old(self).wf(),
        ensures
            r == old(self).domain_size() - old(self).cursor(),
            final(self).wf(),
            final(self).exhausted(),
            final(self).key_view() == old(self).key_view(),
            final(self).tweak_view() == old(self).tweak_view(),
            final(self).width() == old(self).width(),
    {
        let rem = self.remaining();
        let total = self.len();
        self.next = total;
        rem
    }

    /// Both bounds of the sequence's length are exact: each equals
    /// `remaining()`.
    pub fn size_hint(&self) -> (r: (usize, Option<usize>))
        requires
            self.wf(),
        ensures
            r.0 == self.domain_size() - self.cursor(),
            r.1 == Some(r.0),
    {
        let rem = self.remaining();
        (rem, Some(rem))
    }
}

/// Determinism across instances: generators built from the same key, tweak
/// and width agree on the identifier yielded at every position.
pub proof fn lemma_deterministic(a: RandomIdGenerator, b: RandomIdGenerator, i: nat)
    requires
        a.key_view() == b.key_view(),
        a.tweak_view() == b.tweak_view(),
        a.width() == b.width(),
    ensures
        a.id_at(i) == b.id_at(i),
{
}

} // verus!

