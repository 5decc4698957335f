//! Fixed-width ASCII number formatting for archive header fields.
//!
//! Header fields are printed as decimal or octal digit runs, left-justified
//! and padded with trailing spaces to the field's column width.

use vstd::prelude::*;
use vstd::arithmetic::div_mod::{lemma_div_decreases, lemma_div_is_ordered_by_denominator};

verus! {

pub const SPACE: u8 = 32;

/// Number of digits in the base-`radix` representation of `v`.
/// The value zero has exactly one digit.
pub open spec fn spec_num_digits(v: nat, radix: nat) -> nat
    recommends
        2 <= radix,
    decreases v,
    via spec_num_digits_decreases
{
    if radix < 2 || v < radix {
        1
    } else {
        1 + spec_num_digits(v / radix, radix)
    }
}

#[via_fn]
proof fn spec_num_digits_decreases(v: nat, radix: nat) {
    if !(radix < 2 || v < radix) {
        lemma_div_decreases(v as int, radix as int);
    }
}

/// The ASCII digit run of `v` in base `radix`, most significant digit first,
/// with no leading zeros (the value zero prints as the single digit `0`).
pub open spec fn spec_digits(v: nat, radix: nat) -> Seq<u8>
    recommends
        2 <= radix <= 10,
    decreases v,
    via spec_digits_decreases
{
    if radix < 2 || v < radix {
        seq![(48 + v) as u8]
    } else {
        spec_digits(v / radix, radix).push((48 + v % radix) as u8)
    }
}

#[via_fn]
proof fn spec_digits_decreases(v: nat, radix: nat) {
    if !(radix < 2 || v < radix) {
        lemma_div_decreases(v as int, radix as int);
    }
}

/// A run of `n` ASCII space bytes.
pub open spec fn spec_spaces(n: nat) -> Seq<u8> {
    Seq::new(n, |i: int| SPACE)
}

/// `s` left-justified in a field of `w` columns, padded with trailing spaces.
pub open spec fn spec_pad(s: Seq<u8>, w: nat) -> Seq<u8>
    recommends
        s.len() <= w,
{
    s + spec_spaces((w - s.len()) as nat)
}

/// The digit run has exactly `spec_num_digits` bytes.
pub proof fn lemma_digits_len(v: nat, radix: nat)
    requires
        2 <= radix,
    ensures
        spec_digits(v, radix).len() == spec_num_digits(v, radix),
    decreases v,
{
    if v >= radix {
        lemma_div_decreases(v as int, radix as int);
        lemma_digits_len(v / radix, radix);
    }
}

/// Every byte of the digit run is an ASCII digit (in particular, no space).
pub proof fn lemma_digits_ascii(v: nat, radix: nat)
    requires
        2 <= radix <= 10,
    ensures
        forall|i: int|
            0 <= i < spec_digits(v, radix).len() ==> 48 <= #[trigger] spec_digits(v, radix)[i] <= 57,
    decreases v,
{
    if v >= radix {
        lemma_div_decreases(v as int, radix as int);
        lemma_digits_ascii(v / radix, radix);
        assert(v % radix < radix) by (nonlinear_arith)
            requires
                2 <= radix,
        ;
        assert forall|i: int|
            0 <= i < spec_digits(v, radix).len() implies 48 <= #[trigger] spec_digits(
            v,
            radix,
        )[i] <= 57 by {
            if i < spec_digits(v, radix).len() - 1 {
                assert(spec_digits(v, radix)[i] == spec_digits(v / radix, radix)[i]);
            }
        }
    }
}

/// A positive value has no more digits than its own magnitude.
pub proof fn lemma_num_digits_le_value(v: nat, radix: nat)
    requires
        2 <= radix,
        1 <= v,
    ensures
        spec_num_digits(v, radix) <= v,
    decreases v,
{
    if v >= radix {
        lemma_div_decreases(v as int, radix as int);
        lemma_div_is_ordered_by_denominator(v as int, 2, radix as int);
        assert(v / radix >= 1) by (nonlinear_arith)
            requires
                v >= radix,
                radix >= 2,
        ;
        lemma_num_digits_le_value(v / radix, radix);
    }
}

/// The value zero prints as exactly one digit, whatever the radix.
pub proof fn lemma_num_digits_zero(radix: nat)
    ensures
        spec_num_digits(0, radix) == 1,
{
}

/// A value below `radix` to the `k` prints in at most `k` digits.
pub proof fn lemma_num_digits_bound(v: nat, radix: nat, k: nat)
    requires
        2 <= radix,
        1 <= k,
        v < vstd::arithmetic::power::pow(radix as int, k),
    ensures
        spec_num_digits(v, radix) <= k,
    decreases k,
{
    if v >= radix {
        vstd::arithmetic::power::lemma_pow1(radix as int);
        assert(k >= 2);
        let p = vstd::arithmetic::power::pow(radix as int, (k - 1) as nat);
        vstd::arithmetic::power::lemma_pow_positive(radix as int, (k - 1) as nat);
        vstd::arithmetic::power::lemma_pow_adds(radix as int, 1, (k - 1) as nat);
        assert(vstd::arithmetic::power::pow(radix as int, k) == radix * p);
        assert(v / radix < p) by (nonlinear_arith)
            requires
                v < radix * p,
                2 <= radix,
                1 <= p,
        ;
        lemma_num_digits_bound(v / radix, radix, (k - 1) as nat);
    }
}

/// A value below ten billion prints in at most ten decimal digits, the width
/// of the size column.
pub proof fn lemma_ten_digits(v: nat)
    requires
        v < 10_000_000_000,
    ensures
        spec_num_digits(v, 10) <= 10,
{
    assert(vstd::arithmetic::power::pow(10, 10) == 10_000_000_000) by {
        reveal_with_fuel(vstd::arithmetic::power::pow, 11);
    }
    lemma_num_digits_bound(v, 10, 10);
}

/// Counts the digits of `val` written in base `radix`; zero counts as one digit.
pub fn num_digits(val: u64, radix: u64) -> (r: u64)
    requires
        2 <= radix,
    ensures
        r == spec_num_digits(val as nat, radix as nat),
{
    if val == 0 {
        return 1;
    }
    let mut v: u64 = val;
    let mut digits: u64 = 0;
    proof {
        lemma_num_digits_le_value(val as nat, radix as nat);
    }
    while v != 0
        invariant
            2 <= radix,
            v > 0 ==> spec_num_digits(val as nat, radix as nat) == digits
                + spec_num_digits(v as nat, radix as nat),
            v == 0 ==> spec_num_digits(val as nat, radix as nat) == digits,
            digits <= spec_num_digits(val as nat, radix as nat),
            spec_num_digits(val as nat, radix as nat) <= val,
        decreases v,
    {
        proof {
            lemma_div_decreases(v as int, radix as int);
            if v < radix {
                vstd::arithmetic::div_mod::lemma_basic_div(v as int, radix as int);
            } else {
                vstd::arithmetic::div_mod::lemma_div_non_zero(v as int, radix as int);
            }
        }
        v = v / radix;
        digits = digits + 1;
    }
    digits
}

/// Appends the base-`radix` digit run of `v` to `out`.
pub fn push_digits(v: u64, radix: u64, out: &mut Vec<u8>)
    requires
        2 <= radix <= 10,
    ensures
        final(out)@ == old(out)@ + spec_digits(v as nat, radix as nat),
    decreases v,
{
    if v >= radix {
        proof {
            lemma_div_decreases(v as int, radix as int);
        }
        push_digits(v / radix, radix, out);
    }
    proof {
        if v < radix {
            vstd::arithmetic::div_mod::lemma_small_mod(v as nat, radix as nat);
        }
    }
    out.push(48 + (v % radix) as u8);
    assert(out@ =~= old(out)@ + spec_digits(v as nat, radix as nat));
}

/// Appends the digit run of `v`, then trailing spaces up to `width` columns.
pub fn push_padded_digits(v: u64, radix: u64, width: u64, out: &mut Vec<u8>)
    requires
        2 <= radix <= 10,
        spec_num_digits(v as nat, radix as nat) <= width,
    ensures
        final(out)@ == old(out)@ + spec_pad(spec_digits(v as nat, radix as nat), width as nat),
{
    proof {
        lemma_digits_len(v as nat, radix as nat);
    }
    let dlen = num_digits(v, radix);
    push_digits(v, radix, out);
    let ghost digits = spec_digits(v as nat, radix as nat);
    let ghost base = old(out)@;
    let mut i: u64 = dlen;
    while i < width
        invariant
            dlen == digits.len(),
            dlen <= i <= width,
            out@ == base + digits + spec_spaces((i - dlen) as nat),
        decreases width - i,
    {
        out.push(SPACE);
        i = i + 1;
        proof {
            assert(out@ =~= base + digits + spec_spaces((i - dlen) as nat));
        }
    }
    assert(out@ =~= base + spec_pad(digits, width as nat));
}

/// Appends the bytes of `data`, then trailing spaces up to `width` columns.
pub fn push_padded_bytes(data: &Vec<u8>, width: usize, out: &mut Vec<u8>)
    requires
        data@.len() <= width,
    ensures
        final(out)@ == old(out)@ + spec_pad(data@, width as nat),
{
    let ghost base = out@;
    let mut i: usize = 0;
    while i < data.len()
        invariant
            i <= data@.len(),
            out@ == base + data@.take(i as int),
        decreases data@.len() - i,
    {
        out.push(data[i]);
        i = i + 1;
        proof {
            assert(out@ =~= base + data@.take(i as int));
        }
    }
    proof {
        assert(out@ =~= base + data@);
    }
    let mut j: usize = i;
    while j < width
        invariant
            data@.len() <= j <= width,
            out@ == base + data@ + spec_spaces((j - data@.len()) as nat),
        decreases width - j,
    {
        out.push(SPACE);
        j = j + 1;
        proof {
            assert(out@ =~= base + data@ + spec_spaces((j - data@.len()) as nat));
        }
    }
    assert(out@ =~= base + spec_pad(data@, width as nat));
}

/// Appends all bytes of `data` to `out`.
pub fn push_bytes(data: &[u8], out: &mut Vec<u8>)
    ensures
        final(out)@ == old(out)@ + data@,
{
    let ghost base = out@;
    let mut i: usize = 0;
    while i < data.len()
        invariant
            i <= data@.len(),
            out@ == base + data@.take(i as int),
        decreases data@.len() - i,
    {
        out.push(data[i]);
        i = i + 1;
        proof {
            assert(out@ =~= base + data@.take(i as int));
        }
    }
    proof {
        assert(out@ =~= base + data@);
    }
}

/// Compares two byte strings for equality.
pub fn bytes_equal(a: &[u8], b: &[u8]) -> (r: bool)
    ensures
        r == (a@ == b@),
{
    if a.len() != b.len() {
        return false;
    }
    let mut i: usize = 0;
    while i < a.len()
        invariant
            i <= a@.len(),
            a@.len() == b@.len(),
            forall|j: int| 0 <= j < i ==> a@[j] == b@[j],
        decreases a@.len() - i,
    {
        if a[i] != b[i] {
            return false;
        }
        i = i + 1;
    }
    proof {
        assert(a@ =~= b@);
    }
    true
}

} // verus!
