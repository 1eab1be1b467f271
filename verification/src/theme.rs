//! Sizes as people read them.

use vstd::prelude::*;
use crate::i18n::{Lang, t, translate};
use crate::text::{append, dec, fmt_u64, string_of};

verus! {

/// Key of the unit at step `i` (bytes, then powers of 1024).
pub open spec fn unit_key(i: nat) -> Seq<char> {
    if i == 0 {
        "B"@
    } else if i == 1 {
        "KiB"@
    } else if i == 2 {
        "MiB"@
    } else if i == 3 {
        "GiB"@
    } else {
        "TiB"@
    }
}

pub open spec fn pow1024(i: nat) -> nat
    decreases i,
{
    if i == 0 {
        1
    } else {
        1024 * pow1024((i - 1) as nat)
    }
}

proof fn lemma_pow1024_values()
    ensures
        pow1024(0) == 1,
        pow1024(1) == 1024,
        pow1024(2) == 1048576,
        pow1024(3) == 1073741824,
        pow1024(4) == 1099511627776,
{
    assert(pow1024(0) == 1);
    assert(pow1024(1) == 1024);
    assert(pow1024(2) == 1048576);
    assert(pow1024(3) == 1073741824);
    assert(pow1024(4) == 1099511627776);
}

/// The largest unit that leaves at least 1 in front of the point, TiB at most.
pub open spec fn unit_index(n: nat) -> nat {
    if n < pow1024(1) {
        0
    } else if n < pow1024(2) {
        1
    } else if n < pow1024(3) {
        2
    } else if n < pow1024(4) {
        3
    } else {
        4
    }
}

/// `n / d` in tenths, rounded to the nearest tenth, ties to even.
pub open spec fn tenths(n: nat, d: nat) -> nat
    recommends
        d > 0,
{
    let q = (n * 10) / d;
    let r = (n * 10) % d;
    if 2 * r > d || (2 * r == d && q % 2 == 1) {
        q + 1
    } else {
        q
    }
}

/// The number part: whole bytes as an integer, larger units with one decimal.
pub open spec fn size_number(n: nat) -> Seq<char> {
    let i = unit_index(n);
    if i == 0 {
        dec(n)
    } else {
        let q = tenths(n, pow1024(i));
        dec(q / 10) + seq!['.'] + dec(q % 10)
    }
}

/// A byte count in readable units: `638.5 KiB`, `12 B`, `-2.0 MiB`.
pub open spec fn size_text(l: Lang, bytes: int) -> Seq<char> {
    let n = if bytes < 0 {
        (-bytes) as nat
    } else {
        bytes as nat
    };
    let body = size_number(n) + seq![' '] + translate(l, unit_key(unit_index(n)));
    if bytes < 0 {
        seq!['-'] + body
    } else {
        body
    }
}

/// Formats a byte count in readable units.
pub fn human_size(l: Lang, bytes: i64) -> (r: String)
    ensures
        r@ == size_text(l, bytes as int),
{
    let neg = bytes < 0;
    let n: u64 = if bytes == i64::MIN {
        0x8000_0000_0000_0000u64
    } else if neg {
        (-bytes) as u64
    } else {
        bytes as u64
    };
    let ghost nn = n as nat;
    proof {
        lemma_pow1024_values();
    }
    let (i, d): (u64, u64) = if n < 1024 {
        (0, 1)
    } else if n < 1048576 {
        (1, 1024)
    } else if n < 1073741824 {
        (2, 1048576)
    } else if n < 1099511627776 {
        (3, 1073741824)
    } else {
        (4, 1099511627776)
    };
    assert(i == unit_index(nn) && d == pow1024(i as nat));
    let mut out: Vec<char> = Vec::new();
    if neg {
        out.push('-');
    }
    if i == 0 {
        let digits = fmt_u64(n);
        append(&mut out, digits.as_slice());
    } else {
        let big: u128 = (n as u128) * 10;
        let q0: u128 = big / (d as u128);
        let r0: u128 = big % (d as u128);
        let q: u128 = if 2 * r0 > d as u128 || (2 * r0 == d as u128 && q0 % 2 == 1) {
            q0 + 1
        } else {
            q0
        };
        assert(q == tenths(nn, d as nat));
        assert(q <= 0x8000_0000_0000_0000u128 * 10 + 1) by (nonlinear_arith)
            requires
                q0 == big / (d as u128),
                big <= 0x8000_0000_0000_0000u128 * 10,
                d >= 1,
                q <= q0 + 1,
        ;
        let whole = fmt_u64((q / 10) as u64);
        let frac = fmt_u64((q % 10) as u64);
        append(&mut out, whole.as_slice());
        out.push('.');
        append(&mut out, frac.as_slice());
    }
    out.push(' ');
    let unit = match i {
        0 => t(l, "B"),
        1 => t(l, "KiB"),
        2 => t(l, "MiB"),
        3 => t(l, "GiB"),
        _ => t(l, "TiB"),
    };
    let u = crate::text::chars_of(unit.as_str());
    append(&mut out, u.as_slice());
    proof {
        let body = size_number(nn) + seq![' '] + translate(l, unit_key(unit_index(nn)));
        if neg {
            assert(out@ =~= seq!['-'] + body);
        } else {
            assert(out@ =~= body);
        }
    }
    string_of(out.as_slice())
}

} // verus!
