//! Output file names.
//!
//! Standalone frames are written as `picture-<index>.jpg` and animated
//! sequences as `animation-<first index>.gif`, with the index printed
//! in decimal and zero-padded on the left to at least six digits. The
//! names are produced as ASCII byte strings.

use vstd::arithmetic::div_mod::{lemma_fundamental_div_mod, lemma_mod_breakdown, lemma_small_mod};
use vstd::prelude::*;

verus! {

/// Exactly `width` decimal digit characters, least significant last,
/// left-padded with `'0'`: the canonical representation of
/// `n % 10^width`.
pub open spec fn dec_rep(n: nat, width: nat) -> Seq<u8>
    decreases width,
{
    if width == 0 {
        Seq::<u8>::empty()
    } else {
        dec_rep(n / 10, (width - 1) as nat).push((0x30 + n % 10) as u8)
    }
}

/// Number of digits of `n` in decimal.
pub open spec fn num_digits(n: nat) -> nat
    decreases n,
{
    if n < 10 {
        1
    } else {
        1 + num_digits(n / 10)
    }
}

/// The width an index is printed at: its digit count, but at least six.
pub open spec fn padded_width(n: nat) -> nat {
    if num_digits(n) < 6 {
        6
    } else {
        num_digits(n)
    }
}

/// The zero-padded decimal print of `n`.
pub open spec fn padded_decimal(n: nat) -> Seq<u8> {
    dec_rep(n, padded_width(n))
}

/// The numeric value a sequence of decimal digit characters denotes.
pub open spec fn digits_value(s: Seq<u8>) -> int
    decreases s.len(),
{
    if s.len() == 0 {
        0
    } else {
        digits_value(s.drop_last()) * 10 + (s.last() - 0x30)
    }
}

/// `10^k`.
pub open spec fn pow10(k: nat) -> nat
    decreases k,
{
    if k == 0 {
        1
    } else {
        10 * pow10((k - 1) as nat)
    }
}

pub open spec fn picture_prefix() -> Seq<u8> {
    seq![0x70u8, 0x69u8, 0x63u8, 0x74u8, 0x75u8, 0x72u8, 0x65u8, 0x2du8]
}

pub open spec fn jpg_suffix() -> Seq<u8> {
    seq![0x2eu8, 0x6au8, 0x70u8, 0x67u8]
}

pub open spec fn animation_prefix() -> Seq<u8> {
    seq![0x61u8, 0x6eu8, 0x69u8, 0x6du8, 0x61u8, 0x74u8, 0x69u8, 0x6fu8, 0x6eu8, 0x2du8]
}

pub open spec fn gif_suffix() -> Seq<u8> {
    seq![0x2eu8, 0x67u8, 0x69u8, 0x66u8]
}

/// The file name of the standalone image for one sequence index.
pub open spec fn picture_name_spec(n: nat) -> Seq<u8> {
    picture_prefix() + padded_decimal(n) + jpg_suffix()
}

/// The file name of the animated sequence opened at one sequence index.
pub open spec fn animation_name_spec(n: nat) -> Seq<u8> {
    animation_prefix() + padded_decimal(n) + gif_suffix()
}

proof fn lemma_dec_rep_len(n: nat, width: nat)
    ensures
        dec_rep(n, width).len() == width,
    decreases width,
{
    if width > 0 {
        lemma_dec_rep_len(n / 10, (width - 1) as nat);
    }
}

proof fn lemma_dec_rep_digits(n: nat, width: nat)
    ensures
        forall|i: int|
            0 <= i < dec_rep(n, width).len() ==> 0x30 <= #[trigger] dec_rep(n, width)[i] <= 0x39,
    decreases width,
{
    if width > 0 {
        lemma_dec_rep_len(n / 10, (width - 1) as nat);
        lemma_dec_rep_digits(n / 10, (width - 1) as nat);
        let s = dec_rep(n, width);
        let t = dec_rep(n / 10, (width - 1) as nat);
        assert(forall|i: int| 0 <= i < t.len() ==> s[i] == t[i]);
        assert(s[s.len() - 1] == (0x30 + n % 10) as u8);
    }
}

proof fn lemma_dec_rep_value(n: nat, width: nat)
    ensures
        digits_value(dec_rep(n, width)) == n % pow10(width),
    decreases width,
{
    if width == 0 {
        lemma_small_mod(0, 1);
        assert(n % pow10(0) == n % 1);
        lemma_fundamental_div_mod(n as int, 1);
    } else {
        let t = dec_rep(n / 10, (width - 1) as nat);
        let s = dec_rep(n, width);
        lemma_dec_rep_len(n, width);
        assert(s.drop_last() =~= t);
        lemma_dec_rep_value(n / 10, (width - 1) as nat);
        lemma_pow10_pos((width - 1) as nat);
        lemma_mod_breakdown(n as int, 10, pow10((width - 1) as nat) as int);
        assert(pow10(width) == 10 * pow10((width - 1) as nat));
    }
}

proof fn lemma_pow10_pos(k: nat)
    ensures
        pow10(k) >= 1,
    decreases k,
{
    if k > 0 {
        lemma_pow10_pos((k - 1) as nat);
    }
}

proof fn lemma_num_digits_bounded(n: nat, k: nat)
    requires
        k >= 1,
        n < pow10(k),
    ensures
        num_digits(n) <= k,
    decreases k,
{
    if n >= 10 {
        assert(pow10(k) == 10 * pow10((k - 1) as nat));
        lemma_pow10_pos((k - 1) as nat);
        assert(n / 10 < pow10((k - 1) as nat)) by (nonlinear_arith)
            requires
                n < 10 * pow10((k - 1) as nat),
                n >= 10,
                pow10((k - 1) as nat) >= 1,
        ;
        if k == 1 {
            assert(false);
        } else {
            lemma_num_digits_bounded(n / 10, (k - 1) as nat);
        }
    }
}

proof fn lemma_num_digits_bound(n: nat)
    ensures
        n < pow10(num_digits(n)),
    decreases n,
{
    if n < 10 {
        assert(pow10(1) == 10 * pow10(0));
    } else {
        lemma_num_digits_bound(n / 10);
        lemma_fundamental_div_mod(n as int, 10);
        assert(n == 10 * (n as int / 10) + n as int % 10);
    }
}

proof fn lemma_pow10_monotonic(a: nat, b: nat)
    requires
        a <= b,
    ensures
        pow10(a) <= pow10(b),
    decreases b,
{
    if a < b {
        lemma_pow10_monotonic(a, (b - 1) as nat);
        assert(pow10(b) == 10 * pow10((b - 1) as nat));
    }
}

/// Padding is value-preserving: the padded decimal print of an index
/// denotes the index itself, is at least six characters wide, and
/// consists of digit characters only.
pub proof fn lemma_padded_decimal_value(n: nat)
    ensures
        digits_value(padded_decimal(n)) == n,
        padded_decimal(n).len() == padded_width(n),
        padded_decimal(n).len() >= 6,
        forall|i: int|
            0 <= i < padded_decimal(n).len() ==> 0x30 <= #[trigger] padded_decimal(n)[i] <= 0x39,
{
    let w = padded_width(n);
    lemma_dec_rep_len(n, w);
    lemma_dec_rep_digits(n, w);
    lemma_dec_rep_value(n, w);
    lemma_num_digits_bound(n);
    lemma_pow10_monotonic(num_digits(n), w);
    lemma_small_mod(n, pow10(w));
}

fn count_digits(n: u32) -> (r: usize)
    ensures
        r == num_digits(n as nat),
{
    proof {
        reveal_with_fuel(pow10, 11);
        assert(pow10(10) == 10000000000);
        lemma_num_digits_bounded(n as nat, 10);
    }
    let mut m = n;
    let mut c: usize = 1;
    while m >= 10
        invariant
            c >= 1,
            num_digits(n as nat) == c - 1 + num_digits(m as nat),
            num_digits(n as nat) <= 10,
        decreases m,
    {
        m = m / 10;
        c = c + 1;
    }
    c
}

fn dec_rep_exec(n: u32, width: usize) -> (r: Vec<u8>)
    ensures
        r@ == dec_rep(n as nat, width as nat),
    decreases width,
{
    if width == 0 {
        Vec::new()
    } else {
        let mut r = dec_rep_exec(n / 10, width - 1);
        r.push(0x30 + (n % 10) as u8);
        proof {
            assert(r@ =~= dec_rep(n as nat, width as nat));
        }
        r
    }
}

fn padded_decimal_exec(n: u32) -> (r: Vec<u8>)
    ensures
        r@ == padded_decimal(n as nat),
{
    let nd = count_digits(n);
    let width = if nd < 6 {
        6
    } else {
        nd
    };
    dec_rep_exec(n, width)
}

/// Builds `picture-<index zero-padded to at least six digits>.jpg` as
/// ASCII bytes.
pub fn picture_file_name(sequence_index: u32) -> (r: Vec<u8>)
    ensures
        r@ == picture_name_spec(sequence_index as nat),
{
    let mut name: Vec<u8> = Vec::new();
    name.push(0x70u8);
    name.push(0x69u8);
    name.push(0x63u8);
    name.push(0x74u8);
    name.push(0x75u8);
    name.push(0x72u8);
    name.push(0x65u8);
    name.push(0x2du8);
    let mut digits = padded_decimal_exec(sequence_index);
    name.append(&mut digits);
    name.push(0x2eu8);
    name.push(0x6au8);
    name.push(0x70u8);
    name.push(0x67u8);
    proof {
        assert(name@ =~= picture_name_spec(sequence_index as nat));
    }
    name
}

/// Builds `animation-<first index zero-padded to at least six
/// digits>.gif` as ASCII bytes.
pub fn animation_file_name(first_index: u32) -> (r: Vec<u8>)
    ensures
        r@ == animation_name_spec(first_index as nat),
{
    let mut name: Vec<u8> = Vec::new();
    name.push(0x61u8);
    name.push(0x6eu8);
    name.push(0x69u8);
    name.push(0x6du8);
    name.push(0x61u8);
    name.push(0x74u8);
    name.push(0x69u8);
    name.push(0x6fu8);
    name.push(0x6eu8);
    name.push(0x2du8);
    let mut digits = padded_decimal_exec(first_index);
    name.append(&mut digits);
    name.push(0x2eu8);
    name.push(0x67u8);
    name.push(0x69u8);
    name.push(0x66u8);
    proof {
        assert(name@ =~= animation_name_spec(first_index as nat));
    }
    name
}

} // verus!
