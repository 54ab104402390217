//! Decimal and hexadecimal renderings of unsigned integers, as `format!`
//! writes them with `{}` and `{:016x}`.
use vstd::prelude::*;

use crate::text::push_char;

verus! {

pub open spec fn digit_char(d: nat) -> char {
    if d < 10 {
        ((d + 48) as u32) as char
    } else {
        ((d + 87) as u32) as char
    }
}

/// The decimal digits of `n`, most significant first, without leading
/// zeros (`0` for zero).
pub open spec fn dec(n: nat) -> Seq<char>
    decreases n,
{
    if n < 10 {
        seq![digit_char(n)]
    } else {
        dec(n / 10).push(digit_char(n % 10))
    }
}

/// The last `width` hexadecimal digits of `n`, lower case, zero-padded.
pub open spec fn hex(n: nat, width: nat) -> Seq<char>
    decreases width,
{
    if width == 0 {
        Seq::empty()
    } else {
        hex(n / 16, (width - 1) as nat).push(digit_char(n % 16))
    }
}

fn digit(d: u128) -> (c: char)
    requires
        d < 16,
    ensures
        c == digit_char(d as nat),
{
    if d < 10 {
        let v: u8 = (d as u8) + 48;
        v as char
    } else {
        let v: u8 = (d as u8) + 87;
        v as char
    }
}

fn push_dec(out: &mut String, n: u128)
    ensures
        final(out)@ == old(out)@ + dec(n as nat),
    decreases n,
{
    if n >= 10 {
        push_dec(out, n / 10);
    }
    push_char(out, digit(n % 10));
}

/// `n` in decimal.
pub fn decimal(n: u128) -> (res: String)
    ensures
        res@ == dec(n as nat),
{
    let mut out = String::new();
    push_dec(&mut out, n);
    assert(out@ =~= dec(n as nat));
    out
}

fn push_hex(out: &mut String, n: u64, width: u8)
    ensures
        final(out)@ == old(out)@ + hex(n as nat, width as nat),
    decreases width,
{
    if width > 0 {
        push_hex(out, n / 16, width - 1);
        push_char(out, digit((n % 16) as u128));
    } else {
        assert(old(out)@ + hex(n as nat, 0) =~= old(out)@);
    }
}

/// `n` as sixteen lower-case hexadecimal digits.
pub fn hex16(n: u64) -> (res: String)
    ensures
        res@ == hex(n as nat, 16),
{
    let mut out = String::new();
    push_hex(&mut out, n, 16);
    assert(out@ =~= hex(n as nat, 16));
    out
}

} // verus!
