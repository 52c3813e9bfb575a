//! Decimal and hexadecimal rendering of integers, as `format!("{}")`,
//! `format!("{:x}")` and zero-padded `format!("{:0N x}")` write them.
use vstd::prelude::*;

verus! {

/// The ASCII digit for `d` (`d < 10`).
pub open spec fn dec_char(d: nat) -> char {
    ((48 + d) as u8) as char
}

/// The lowercase ASCII hex digit for `d` (`d < 16`).
pub open spec fn hex_char(d: nat) -> char {
    if d < 10 {
        ((48 + d) as u8) as char
    } else {
        ((87 + d) as u8) as char
    }
}

/// Decimal digits of `n`, most significant first, without leading zeros.
pub open spec fn dec_digits(n: nat) -> Seq<char>
    decreases n,
{
    if n < 10 {
        seq![dec_char(n)]
    } else {
        dec_digits(n / 10) + seq![dec_char(n % 10)]
    }
}

/// Lowercase hex digits of `n`, most significant first, without leading zeros.
pub open spec fn hex_digits(n: nat) -> Seq<char>
    decreases n,
{
    if n < 16 {
        seq![hex_char(n)]
    } else {
        hex_digits(n / 16) + seq![hex_char(n % 16)]
    }
}

/// `s` padded on the left with `'0'` up to `w` characters.
pub open spec fn zero_pad(s: Seq<char>, w: nat) -> Seq<char> {
    if s.len() < w {
        Seq::new((w - s.len()) as nat, |i: int| '0') + s
    } else {
        s
    }
}

/// `16^k`.
pub open spec fn pow16(k: nat) -> nat
    decreases k,
{
    if k == 0 {
        1
    } else {
        16 * pow16((k - 1) as nat)
    }
}

/// Decimal rendering of an unsigned integer.
pub fn dec_u128(n: u128) -> (r: Vec<char>)
    ensures
        r@ == dec_digits(n as nat),
    decreases n,
{
    let d = (n % 10) as u8;
    let c = (48u8 + d) as char;
    if n < 10 {
        let mut v: Vec<char> = Vec::new();
        v.push(c);
        assert(v@ =~= seq![dec_char(n as nat)]);
        v
    } else {
        let mut v = dec_u128(n / 10);
        v.push(c);
        v
    }
}

/// Lowercase hex rendering of an unsigned integer.
pub fn hex_u128(n: u128) -> (r: Vec<char>)
    ensures
        r@ == hex_digits(n as nat),
    decreases n,
{
    let d = (n % 16) as u8;
    let c = if d < 10 {
        (48u8 + d) as char
    } else {
        (87u8 + d) as char
    };
    if n < 16 {
        let mut v: Vec<char> = Vec::new();
        v.push(c);
        assert(v@ =~= seq![hex_char(n as nat)]);
        v
    } else {
        let mut v = hex_u128(n / 16);
        v.push(c);
        v
    }
}

/// `s` padded on the left with zeros up to `w` characters.
pub fn zero_pad_exec(s: &[char], w: usize) -> (r: Vec<char>)
    ensures
        r@ == zero_pad(s@, w as nat),
{
    let mut out: Vec<char> = Vec::new();
    if s.len() < w {
        let k = w - s.len();
        let mut i: usize = 0;
        while i < k
            invariant
                0 <= i <= k,
                out@ == Seq::new(i as nat, |j: int| '0'),
            decreases k - i,
        {
            out.push('0');
            i = i + 1;
            assert(out@ =~= Seq::new(i as nat, |j: int| '0'));
        }
    }
    crate::text::push_all(&mut out, s);
    if s.len() >= w {
        assert(out@ =~= s@);
    }
    out
}

} // verus!
