//! Decimal formatting of sizes, durations and other integers.
use vstd::prelude::*;
use crate::text::{push_char, push_str};

verus! {

/// The decimal digit character for `d < 10`.
pub open spec fn digit_char(d: nat) -> char {
    if d == 0 {
        '0'
    } else if d == 1 {
        '1'
    } else if d == 2 {
        '2'
    } else if d == 3 {
        '3'
    } else if d == 4 {
        '4'
    } else if d == 5 {
        '5'
    } else if d == 6 {
        '6'
    } else if d == 7 {
        '7'
    } else if d == 8 {
        '8'
    } else {
        '9'
    }
}

/// Decimal representation of `n`, without leading zeros.
pub open spec fn dec(n: nat) -> Seq<char>
    decreases n,
{
    if n < 10 {
        seq![digit_char(n)]
    } else {
        dec(n / 10).push(digit_char(n % 10))
    }
}

/// `n < 100` in two digits, with a leading zero where needed (`{:02}`).
pub open spec fn dec2(n: nat) -> Seq<char> {
    if n < 10 {
        seq!['0', digit_char(n)]
    } else {
        dec(n)
    }
}

/// `2^e`.
pub open spec fn pow2(e: nat) -> nat
    decreases e,
{
    if e == 0 {
        1
    } else {
        2 * pow2((e - 1) as nat)
    }
}

/// Number of binary digits of `b`.
pub open spec fn bit_len(b: nat) -> nat
    decreases b,
{
    if b == 0 {
        0
    } else {
        1 + bit_len(b / 2)
    }
}

/// `a / d` rounded to the nearest integer, ties to even.
pub open spec fn div_round_even(a: nat, d: nat) -> nat {
    let q = a / d;
    let r = a % d;
    if 2 * r > d || (2 * r == d && q % 2 == 1) {
        q + 1
    } else {
        q
    }
}

/// The value of `b` as an `f64`: `b` rounded to 53 significant bits, ties
/// to even (IEEE 754 round-to-nearest).
pub open spec fn f64_value(b: nat) -> nat {
    let k = bit_len(b);
    if k <= 53 {
        b
    } else {
        let u = pow2((k - 53) as nat);
        div_round_even(b, u) * u
    }
}

/// `1024^i`.
pub open spec fn kib_pow(i: nat) -> nat
    decreases i,
{
    if i == 0 {
        1
    } else {
        1024 * kib_pow((i - 1) as nat)
    }
}

/// How many times a size is divided by 1024 before it is shown: while it is
/// at least 1024, and at most four times (TB).
pub open spec fn unit_index(r: nat) -> nat {
    if r >= kib_pow(4) {
        4
    } else if r >= kib_pow(3) {
        3
    } else if r >= kib_pow(2) {
        2
    } else if r >= kib_pow(1) {
        1
    } else {
        0
    }
}

/// The unit after `i` divisions by 1024.
pub open spec fn unit_name(i: nat) -> Seq<char> {
    if i == 0 {
        "B"@
    } else if i == 1 {
        "KB"@
    } else if i == 2 {
        "MB"@
    } else if i == 3 {
        "GB"@
    } else {
        "TB"@
    }
}

/// Human-readable size: whole bytes below 1024, otherwise the size in the
/// largest unit up to TB that keeps it at least 1 (the size taken as an
/// `f64`), with one decimal, rounded half to even.
pub open spec fn human_size_spec(b: nat) -> Seq<char> {
    let r = f64_value(b);
    let i = unit_index(r);
    if i == 0 {
        dec(b) + " B"@
    } else {
        let t = div_round_even(10 * r, kib_pow(i));
        dec(t / 10) + seq!['.', digit_char(t % 10), ' '] + unit_name(i)
    }
}

/// `h:mm:ss` where there are whole hours, `m:ss` otherwise.
pub open spec fn duration_spec(t: nat) -> Seq<char> {
    let h = t / 3600;
    let m = (t % 3600) / 60;
    let s = t % 60;
    if h > 0 {
        dec(h) + seq![':'] + dec2(m) + seq![':'] + dec2(s)
    } else {
        dec(m) + seq![':'] + dec2(s)
    }
}

/// The decimal digit character for `d < 10`.
pub fn digit(d: u128) -> (c: char)
    requires
        d < 10,
    ensures
        c == digit_char(d as nat),
{
    if d == 0 {
        '0'
    } else if d == 1 {
        '1'
    } else if d == 2 {
        '2'
    } else if d == 3 {
        '3'
    } else if d == 4 {
        '4'
    } else if d == 5 {
        '5'
    } else if d == 6 {
        '6'
    } else if d == 7 {
        '7'
    } else if d == 8 {
        '8'
    } else {
        '9'
    }
}

/// Appends the decimal digits of `n`.
pub fn push_decimal(s: &mut String, n: u128)
    ensures
        final(s)@ == old(s)@ + dec(n as nat),
    decreases n,
{
    if n >= 10 {
        push_decimal(s, n / 10);
        push_char(s, digit(n % 10));
        assert(dec(n as nat) == dec((n / 10) as nat).push(digit_char((n % 10) as nat)));
    } else {
        push_char(s, digit(n));
    }
}

/// Appends `n < 100` as two digits.
fn push_dec2(s: &mut String, n: u128)
    requires
        n < 100,
    ensures
        final(s)@ == old(s)@ + dec2(n as nat),
{
    if n < 10 {
        push_char(s, '0');
        push_char(s, digit(n));
    } else {
        push_decimal(s, n);
    }
}

/// The decimal representation of `n`.
pub fn decimal(n: u64) -> (r: String)
    ensures
        r@ == dec(n as nat),
{
    let mut r = String::new();
    push_decimal(&mut r, n as u128);
    r
}

/// A number of whole seconds as `h:mm:ss`, or `m:ss` under an hour.
pub fn fmt_duration_secs(t: u64) -> (r: String)
    ensures
        r@ == duration_spec(t as nat),
{
    let h = t / 3600;
    let m = (t % 3600) / 60;
    let s = t % 60;
    let mut r = String::new();
    if h > 0 {
        push_decimal(&mut r, h as u128);
        push_char(&mut r, ':');
        push_dec2(&mut r, m as u128);
        push_char(&mut r, ':');
        push_dec2(&mut r, s as u128);
    } else {
        push_decimal(&mut r, m as u128);
        push_char(&mut r, ':');
        push_dec2(&mut r, s as u128);
    }
    r
}

pub proof fn lemma_bit_len_bound(x: nat, k: nat)
    requires
        x < pow2(k),
    ensures
        bit_len(x) <= k,
    decreases k,
{
    if k > 0 && x > 0 {
        lemma_bit_len_bound(x / 2, (k - 1) as nat);
    } else if k == 0 {
        assert(x == 0);
    }
}

proof fn lemma_pow2_64()
    ensures
        pow2(64) == 0x1_0000_0000_0000_0000,
        pow2(53) == 0x20_0000_0000_0000,
{
    reveal_with_fuel(pow2, 65);
}

/// `b` as an `f64` would hold it.
fn f64_round(b: u64) -> (r: u128)
    ensures
        r == f64_value(b as nat),
        r <= 0x1_0000_0000_0000_0800,
{
    proof {
        lemma_pow2_64();
    }
    let mut x = b;
    let mut k: u128 = 0;
    while x > 0
        invariant
            bit_len(b as nat) == k + bit_len(x as nat),
            k <= 64,
            (x as nat) < pow2((64 - k) as nat),
        decreases x,
    {
        assert(pow2((64 - k) as nat) == 2 * pow2((64 - k - 1) as nat));
        x = x / 2;
        k = k + 1;
    }
    if k <= 53 {
        return b as u128;
    }
    let e = k - 53;
    let mut u: u128 = 1;
    let mut j: u128 = 0;
    while j < e
        invariant
            j <= e <= 11,
            u == pow2(j as nat),
            1 <= u <= 2048,
        decreases e - j,
    {
        proof {
            reveal_with_fuel(pow2, 12);
        }
        assert(pow2((j + 1) as nat) == 2 * pow2(j as nat));
        assert(u * 2 <= 2048) by {
            lemma_pow2_le(j as nat, 10);
            reveal_with_fuel(pow2, 12);
        }
        u = u * 2;
        j = j + 1;
    }
    let bb = b as u128;
    let q = bb / u;
    let rem = bb % u;
    let q2 = if 2 * rem > u || (2 * rem == u && q % 2 == 1) {
        q + 1
    } else {
        q
    };
    assert(q * u <= bb) by (nonlinear_arith)
        requires
            q == bb / u,
            u >= 1,
    ;
    assert(q2 * u <= bb + u) by (nonlinear_arith)
        requires
            q * u <= bb,
            q2 <= q + 1,
    ;
    q2 * u
}

/// `2^j <= 2^k` for `j <= k`.
pub proof fn lemma_pow2_le(j: nat, k: nat)
    requires
        j <= k,
    ensures
        pow2(j) <= pow2(k),
    decreases k,
{
    if j < k {
        lemma_pow2_le(j, (k - 1) as nat);
    }
}

proof fn lemma_kib_pows()
    ensures
        kib_pow(1) == 1024,
        kib_pow(2) == 1048576,
        kib_pow(3) == 1073741824,
        kib_pow(4) == 1099511627776,
{
    reveal_with_fuel(kib_pow, 5);
}

/// The unit after `i` divisions by 1024.
fn unit(i: u128) -> (s: &'static str)
    requires
        1 <= i <= 4,
    ensures
        s@ == unit_name(i as nat),
{
    if i == 1 {
        "KB"
    } else if i == 2 {
        "MB"
    } else if i == 3 {
        "GB"
    } else {
        "TB"
    }
}

/// Human-readable size: whole bytes below 1024 ("512 B"), otherwise one
/// decimal in KB, MB, GB or TB ("1.5 KB").
pub fn human_size(b: u64) -> (r: String)
    ensures
        r@ == human_size_spec(b as nat),
{
    proof {
        lemma_kib_pows();
    }
    let v = f64_round(b);
    let (i, kp): (u128, u128) = if v >= 1099511627776 {
        (4, 1099511627776)
    } else if v >= 1073741824 {
        (3, 1073741824)
    } else if v >= 1048576 {
        (2, 1048576)
    } else if v >= 1024 {
        (1, 1024)
    } else {
        (0, 1)
    };
    let mut r = String::new();
    if i == 0 {
        push_decimal(&mut r, b as u128);
        push_str(&mut r, " B");
        proof {
            reveal_strlit(" B");
        }
        return r;
    }
    let a = 10 * v;
    let q = a / kp;
    let rem = a % kp;
    let t = if 2 * rem > kp || (2 * rem == kp && q % 2 == 1) {
        q + 1
    } else {
        q
    };
    push_decimal(&mut r, t / 10);
    push_char(&mut r, '.');
    push_char(&mut r, digit(t % 10));
    push_char(&mut r, ' ');
    push_str(&mut r, unit(i));
    r
}

} // verus!
