//! Sizes and durations as people read them: a count of bytes with a binary
//! prefix, and a duration by its biggest unit.

use vstd::prelude::*;
use crate::numbers::{decimal_text, digit_char, push_decimal};
use crate::text::push_char;

verus! {

/// How often `n` can be divided by 1024 before it falls below 1024.
pub open spec fn scale(n: nat) -> nat
    decreases n,
{
    if n < 1024 {
        0
    } else {
        1 + scale(n / 1024)
    }
}

/// 1024 to the power of `k`.
pub open spec fn kibi_power(k: nat) -> nat
    decreases k,
{
    if k == 0 {
        1
    } else {
        1024 * kibi_power((k - 1) as nat)
    }
}

/// The prefix for 1024 to the power of `k`.
pub open spec fn prefix_text(k: nat) -> Seq<char> {
    if k == 1 {
        "Ki"@
    } else if k == 2 {
        "Mi"@
    } else if k == 3 {
        "Gi"@
    } else if k == 4 {
        "Ti"@
    } else if k == 5 {
        "Pi"@
    } else {
        "Ei"@
    }
}

/// `n` divided by `d` in tenths, rounded to the nearest tenth, and to the
/// even one where two are equally near.
pub open spec fn rounded_tenths(n: nat, d: nat) -> nat {
    let q = (10 * n) / d;
    let r = (10 * n) % d;
    if 2 * r > d || (2 * r == d && q % 2 == 1) {
        q + 1
    } else {
        q
    }
}

/// A size in bytes as text: below 1024 the number of bytes; from there on
/// the size in the biggest unit that it fills, with one decimal place.
pub open spec fn size_text(n: nat) -> Seq<char> {
    if n < 1024 {
        decimal_text(n) + " bytes"@
    } else {
        let k = scale(n);
        let tenths = rounded_tenths(n, kibi_power(k));
        decimal_text(tenths / 10).push('.').push(digit_char(tenths % 10)) + prefix_text(k)
            + "B"@
    }
}

/// A duration of `secs` seconds by its biggest unit: whole seconds below a
/// minute, whole minutes below an hour, whole hours from there on.
pub open spec fn duration_text(secs: nat) -> Seq<char> {
    if secs < 60 {
        decimal_text(secs).push('s')
    } else if secs / 60 < 60 {
        decimal_text(secs / 60).push('m')
    } else {
        decimal_text(secs / 3600).push('h')
    }
}

proof fn lemma_scale_step(n: nat, k: nat, d: nat)
    requires
        d == kibi_power(k),
        d > 0,
        n / d >= 1024,
    ensures
        scale(n / d) == 1 + scale(n / (1024 * d)),
        (n / d) / 1024 == n / (1024 * d),
{
    assert((n / d) / 1024 == n / (1024 * d)) by (nonlinear_arith)
        requires
            d > 0,
    ;
}

/// Writes a size in bytes for a reader.
pub fn show_size(bytes: u64) -> (s: String)
    ensures
        s@ == size_text(bytes as nat),
{
    let mut out = String::new();
    if bytes < 1024 {
        push_decimal(&mut out, bytes);
        out.append(" bytes");
        assert(out@ =~= size_text(bytes as nat));
        return out;
    }
    let mut k: u8 = 0;
    let mut d: u64 = 1;
    while bytes / d >= 1024
        invariant
            0 <= k <= 6,
            d == kibi_power(k as nat),
            d > 0,
            k < 6 ==> d <= 0x4_0000_0000_0000,
            k == 6 ==> d == 0x1000_0000_0000_0000,
            scale(bytes as nat) == k + scale((bytes / d) as nat),
        decreases 6 - k,
    {
        proof {
            lemma_scale_step(bytes as nat, k as nat, d as nat);
            if k == 6 {
                assert(bytes / 0x1000_0000_0000_0000u64 < 16);
            }
            reveal_with_fuel(kibi_power, 8);
            assert(kibi_power(6) == 0x1000_0000_0000_0000);
            assert(kibi_power(5) == 0x4_0000_0000_0000);
        }
        d = d * 1024;
        k = k + 1;
    }
    let scaled: u128 = (bytes as u128) * 10;
    let q: u128 = scaled / (d as u128);
    let r: u128 = scaled % (d as u128);
    let tenths: u128 = if 2 * r > d as u128 || (2 * r == d as u128 && q % 2 == 1) {
        q + 1
    } else {
        q
    };
    assert(tenths == rounded_tenths(bytes as nat, d as nat));
    assert(q <= 10240) by (nonlinear_arith)
        requires
            q == (bytes as int * 10) / (d as int),
            d > 0,
            bytes / d < 1024,
    ;
    push_decimal(&mut out, (tenths / 10) as u64);
    push_char(&mut out, '.');
    push_char(&mut out, (0x30 + (tenths % 10) as u8) as char);
    let prefix = if k == 1 {
        "Ki"
    } else if k == 2 {
        "Mi"
    } else if k == 3 {
        "Gi"
    } else if k == 4 {
        "Ti"
    } else if k == 5 {
        "Pi"
    } else {
        "Ei"
    };
    out.append(prefix);
    out.append("B");
    assert(out@ =~= size_text(bytes as nat));
    out
}

/// Writes a duration by its biggest unit.
pub fn major_duration_unit(secs: u64) -> (s: String)
    ensures
        s@ == duration_text(secs as nat),
{
    let mut out = String::new();
    if secs < 60 {
        push_decimal(&mut out, secs);
        push_char(&mut out, 's');
    } else if secs / 60 < 60 {
        push_decimal(&mut out, secs / 60);
        push_char(&mut out, 'm');
    } else {
        push_decimal(&mut out, secs / 60 / 60);
        push_char(&mut out, 'h');
    }
    assert(out@ =~= duration_text(secs as nat));
    out
}

} // verus!
