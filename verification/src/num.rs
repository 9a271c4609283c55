//! Decimal rendering of numbers, with zero padding and `_` grouping.

use vstd::prelude::*;

use crate::text::push_char;

verus! {

/// The ASCII digit for `d`, which is below 10.
pub open spec fn digit_char(d: nat) -> char {
    (48 + d) as char
}

/// The decimal digits of `n`, most significant first, without leading zeros
/// (`0` is the single digit `0`).
pub open spec fn decimal(n: nat) -> Seq<char>
    decreases n,
{
    if n < 10 {
        seq![digit_char(n)]
    } else {
        decimal(n / 10).push(digit_char(n % 10))
    }
}

/// The lowercase hexadecimal digit for `d`, which is below 16.
pub open spec fn hex_char(d: nat) -> char {
    if d < 10 {
        (48 + d) as char
    } else {
        (87 + d) as char
    }
}

/// The lowercase hexadecimal digits of `n`, without leading zeros.
pub open spec fn hex(n: nat) -> Seq<char>
    decreases n,
{
    if n < 16 {
        seq![hex_char(n)]
    } else {
        hex(n / 16).push(hex_char(n % 16))
    }
}

/// `decimal(n)` left-padded with `0` to at least `width` characters.
pub open spec fn zero_padded(n: nat, width: nat) -> Seq<char> {
    let d = decimal(n);
    if d.len() < width {
        Seq::new((width - d.len()) as nat, |i: int| '0') + d
    } else {
        d
    }
}

/// The first `k` characters of `s`, with `_` written before every character
/// that is followed by a multiple of three characters (the first one
/// excepted): Rust-style grouping such as `1_000_000`.
pub open spec fn grouped_prefix(s: Seq<char>, k: nat) -> Seq<char>
    decreases k,
{
    if k == 0 {
        Seq::empty()
    } else {
        let i = (k - 1) as nat;
        let sep = if i > 0 && (s.len() - i) % 3 == 0 { seq!['_'] } else { Seq::empty() };
        grouped_prefix(s, i) + sep + seq![s[i as int]]
    }
}

pub open spec fn grouped(s: Seq<char>) -> Seq<char> {
    grouped_prefix(s, s.len())
}

/// What `format_grouped(n, width)` renders.
pub open spec fn spec_format_grouped(n: nat, width: nat) -> Seq<char> {
    grouped(zero_padded(n, width))
}

/// Append the decimal digits of `n` to `out`.
fn push_decimal(n: u64, out: &mut Vec<char>)
    ensures
        final(out)@ == old(out)@ + decimal(n as nat),
    decreases n,
{
    if n >= 10 {
        push_decimal(n / 10, out);
    }
    let d: u64 = n % 10;
    let c: char = (48u8 + d as u8) as char;
    assert(c == digit_char(d as nat)) by {
        assert(d < 10);
    }
    out.push(c);
}

fn push_hex(n: u64, out: &mut Vec<char>)
    ensures
        final(out)@ == old(out)@ + hex(n as nat),
    decreases n,
{
    if n >= 16 {
        push_hex(n / 16, out);
    }
    let d: u64 = n % 16;
    let c: char = if d < 10 {
        (48u8 + d as u8) as char
    } else {
        (87u8 + d as u8) as char
    };
    out.push(c);
}

/// The hexadecimal digits of `n`, as `{:x}` renders them.
pub fn hex_chars(n: u64) -> (r: Vec<char>)
    ensures
        r@ == hex(n as nat),
{
    let mut out: Vec<char> = Vec::new();
    push_hex(n, &mut out);
    assert(out@ == hex(n as nat));
    out
}

/// The decimal digits of `n`.
pub fn decimal_chars(n: u64) -> (r: Vec<char>)
    ensures
        r@ == decimal(n as nat),
{
    let mut out: Vec<char> = Vec::new();
    push_decimal(n, &mut out);
    assert(out@ == decimal(n as nat));
    out
}

/// The decimal rendering of `n` as a string.
pub fn decimal_string(n: u64) -> (r: String)
    ensures
        r@ == decimal(n as nat),
{
    let ds = decimal_chars(n);
    let mut s = String::new();
    crate::text::push_chars(&mut s, &ds);
    s
}

/// Format `n` padded with zeros to `min_width` digits, with `_` inserted
/// between groups of three digits counted from the right.
pub fn format_grouped(n: u64, min_width: usize) -> (r: String)
    ensures
        r@ == spec_format_grouped(n as nat, min_width as nat),
{
    let ds = decimal_chars(n);
    let mut padded: Vec<char> = Vec::new();
    if ds.len() < min_width {
        let zeros = min_width - ds.len();
        let mut i: usize = 0;
        while i < zeros
            invariant
                i <= zeros,
                padded@ == Seq::new(i as nat, |j: int| '0'),
            decreases zeros - i,
        {
            padded.push('0');
            i = i + 1;
            assert(padded@ =~= Seq::new(i as nat, |j: int| '0'));
        }
    }
    let mut i: usize = 0;
    while i < ds.len()
        invariant
            i <= ds.len(),
            ds@ == decimal(n as nat),
            ds.len() < min_width ==> padded@ == Seq::new((min_width - ds.len()) as nat, |j: int| '0') + ds@.subrange(0, i as int),
            ds.len() >= min_width ==> padded@ == ds@.subrange(0, i as int),
        decreases ds.len() - i,
    {
        padded.push(ds[i]);
        i = i + 1;
        assert(ds@.subrange(0, i as int) == ds@.subrange(0, i - 1 as int).push(ds@[i - 1]));
    }
    assert(ds@.subrange(0, ds.len() as int) == ds@);
    assert(padded@ == zero_padded(n as nat, min_width as nat));

    let len = padded.len();
    let mut out = String::new();
    let mut k: usize = 0;
    while k < len
        invariant
            k <= len,
            len == padded.len(),
            out@ == grouped_prefix(padded@, k as nat),
        decreases len - k,
    {
        if k > 0 && (len - k) % 3 == 0 {
            push_char(&mut out, '_');
        }
        push_char(&mut out, padded[k]);
        k = k + 1;
    }
    out
}

/// Format a number Rust-style with `_` grouping, padded to the 20 digits of
/// `u64::MAX`.
pub fn format_pad_u64(n: u64) -> (r: String)
    ensures
        r@ == spec_format_grouped(n as nat, 20),
{
    format_grouped(n, 20)
}

/// Format a number Rust-style with `_` grouping, padded to 9 digits.
pub fn format_pad9_u64(n: u64) -> (r: String)
    ensures
        r@ == spec_format_grouped(n as nat, 9),
{
    format_grouped(n, 9)
}

} // verus!
