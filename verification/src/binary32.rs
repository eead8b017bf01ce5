//! Single-precision arithmetic as the waveform's dot test uses it, modelled
//! exactly in integers: an integer converted to `f32` keeps 24 significant
//! bits, a quotient of two such values is rounded to 24 significant bits,
//! both to nearest with ties to even, and the rounded quotients are then
//! compared.  The quotients met here lie in `(0, 1]`, far from the
//! subnormal and overflow ranges.
use vstd::prelude::*;
use vstd::arithmetic::div_mod::{lemma_fundamental_div_mod, lemma_fundamental_div_mod_converse};
use crate::units::{pow2, bit_len, div_round_even, lemma_pow2_le, lemma_bit_len_bound};

verus! {

/// `n` as an `f32` holds it: rounded to 24 significant bits, ties to even.
pub open spec fn round24(n: nat) -> nat {
    let k = bit_len(n);
    if k <= 24 {
        n
    } else {
        let u = pow2((k - 24) as nat);
        div_round_even(n, u) * u
    }
}

/// For `0 < a <= b`, the exponent `e` that puts `a * 2^e / b` in
/// `[2^23, 2^24)`, so that the quotient's 24-bit significand is that value
/// rounded to an integer.
pub open spec fn quot_exp(a: nat, b: nat) -> nat {
    let e0 = (24 + bit_len(b) - bit_len(a)) as nat;
    if e0 >= 1 && a * pow2(e0) >= pow2(24) * b {
        (e0 - 1) as nat
    } else {
        e0
    }
}

/// For `0 < a <= b`, the significand of `a / b` rounded to 24 bits (ties to
/// even); the rounded quotient is `quot_sig(a, b) / 2^quot_exp(a, b)`.
pub open spec fn quot_sig(a: nat, b: nat) -> nat {
    div_round_even(a * pow2(quot_exp(a, b)), b)
}

/// For `0 <= a <= b` and `0 <= c <= d` with `b, d > 0`: whether the rounded
/// quotient `a / b` is at least the rounded quotient `c / d`.
pub open spec fn quot_ge(a: nat, b: nat, c: nat, d: nat) -> bool {
    if a == 0 {
        c == 0
    } else if c == 0 {
        true
    } else {
        quot_sig(a, b) * pow2(quot_exp(c, d)) >= quot_sig(c, d) * pow2(quot_exp(a, b))
    }
}

// ─── Powers of two and bit lengths ──────────────────────────────────────────

pub proof fn lemma_pow2_add(x: nat, y: nat)
    ensures
        pow2(x + y) == pow2(x) * pow2(y),
    decreases x,
{
    if x > 0 {
        let xm = (x - 1) as nat;
        lemma_pow2_add(xm, y);
        assert(pow2(x) == 2 * pow2(xm));
        assert(x + y == (xm + y) + 1);
        assert(pow2(x + y) == 2 * pow2(xm + y));
        assert(2 * (pow2(xm) * pow2(y)) == (2 * pow2(xm)) * pow2(y)) by (nonlinear_arith);
    } else {
        assert(pow2(0) == 1);
        assert(x + y == y);
    }
}

pub proof fn lemma_pow2_pos(k: nat)
    ensures
        pow2(k) >= 1,
    decreases k,
{
    if k > 0 {
        lemma_pow2_pos((k - 1) as nat);
    }
}

pub proof fn lemma_bit_len_range(x: nat)
    requires
        x > 0,
    ensures
        bit_len(x) >= 1,
        pow2((bit_len(x) - 1) as nat) <= x < pow2(bit_len(x)),
    decreases x,
{
    if x >= 2 {
        lemma_bit_len_range(x / 2);
        assert(pow2(bit_len(x)) == 2 * pow2(bit_len(x / 2)));
        assert(pow2((bit_len(x) - 1) as nat) == 2 * pow2((bit_len(x / 2) - 1) as nat));
    } else {
        assert(bit_len(0) == 0);
        assert(bit_len(x) == 1);
        assert(pow2(1) == 2) by {
            reveal_with_fuel(pow2, 2);
        }
    }
}

pub proof fn lemma_bit_len_mono(x: nat, y: nat)
    requires
        x <= y,
    ensures
        bit_len(x) <= bit_len(y),
{
    if y > 0 {
        lemma_bit_len_range(y);
        lemma_bit_len_bound(x, bit_len(y));
    }
}

// ─── Rounding an integer quotient ───────────────────────────────────────────

proof fn lemma_dre_bounds(n: nat, d: nat)
    requires
        d > 0,
    ensures
        n / d <= div_round_even(n, d) <= n / d + 1,
        (n / d) * d <= n < (n / d + 1) * d,
{
    lemma_fundamental_div_mod(n as int, d as int);
    assert((n / d) * d == d * (n / d)) by (nonlinear_arith);
    assert((n / d + 1) * d == d * (n / d) + d) by (nonlinear_arith);
}

proof fn lemma_dre_mono(x: nat, y: nat, d: nat)
    requires
        d > 0,
        x <= y,
    ensures
        div_round_even(x, d) <= div_round_even(y, d),
{
    lemma_fundamental_div_mod(x as int, d as int);
    lemma_fundamental_div_mod(y as int, d as int);
    vstd::arithmetic::div_mod::lemma_div_is_ordered(x as int, y as int, d as int);
    lemma_dre_bounds(x, d);
    lemma_dre_bounds(y, d);
}

proof fn lemma_dre_scale(x: nat, d: nat, k: nat)
    requires
        d > 0,
        k >= 1,
    ensures
        div_round_even(k * x, k * d) == div_round_even(x, d),
{
    let q = x / d;
    let r = x % d;
    lemma_fundamental_div_mod(x as int, d as int);
    assert(k * x == q * (k * d) + k * r && 0 <= k * r < k * d) by (nonlinear_arith)
        requires
            x == d * q + r,
            0 <= r < d,
            k >= 1,
    ;
    assert(k * d > 0) by (nonlinear_arith)
        requires
            k >= 1,
            d > 0,
    ;
    lemma_fundamental_div_mod_converse((k * x) as int, (k * d) as int, q as int, (k * r) as int);
    assert((2 * (k * r) > k * d) == (2 * r > d) && (2 * (k * r) == k * d) == (2 * r == d))
        by (nonlinear_arith)
        requires
            k >= 1,
    ;
}

// ─── Integers as f32 ────────────────────────────────────────────────────────

/// Bounds of `round24(n)`: exact below 2^24, otherwise within the binade
/// of `n`.
pub proof fn lemma_round24_bounds(n: nat)
    requires
        n > 0,
    ensures
        bit_len(n) <= 24 ==> round24(n) == n,
        bit_len(n) > 24 ==> pow2((bit_len(n) - 1) as nat) <= round24(n) <= pow2(bit_len(n)),
        round24(n) >= 1,
        round24(n) <= pow2(bit_len(n)),
{
    let k = bit_len(n);
    lemma_bit_len_range(n);
    if k > 24 {
        let u = pow2((k - 24) as nat);
        lemma_pow2_add(24, (k - 24) as nat);
        lemma_pow2_add(23, (k - 24) as nat);
        lemma_pow2_pos((k - 24) as nat);
        assert(pow2(24) == 16777216 && pow2(23) == 8388608) by {
            reveal_with_fuel(pow2, 25);
        }
        lemma_dre_bounds(n, u);
        let q = n / u;
        let m = div_round_even(n, u);
        assert(q < pow2(24)) by (nonlinear_arith)
            requires
                q * u <= n,
                n < pow2(24) * u,
                u > 0,
        ;
        assert(q >= pow2(23)) by (nonlinear_arith)
            requires
                n < (q + 1) * u,
                pow2(23) * u <= n,
                u > 0,
        ;
        assert(pow2(23) * u <= m * u <= pow2(24) * u) by (nonlinear_arith)
            requires
                pow2(23) <= m <= pow2(24),
                u > 0,
        ;
        assert(k - 1 == 23 + (k - 24));
    } else {
        assert(pow2(24) == 16777216) by {
            reveal_with_fuel(pow2, 25);
        }
    }
}

/// Converting to `f32` keeps the order of integers.
pub proof fn lemma_round24_mono(x: nat, y: nat)
    requires
        0 < x <= y,
    ensures
        round24(x) <= round24(y),
{
    let kx = bit_len(x);
    let ky = bit_len(y);
    lemma_bit_len_mono(x, y);
    lemma_round24_bounds(x);
    lemma_round24_bounds(y);
    lemma_bit_len_range(x);
    if ky <= 24 {
    } else if kx <= 24 {
        lemma_pow2_le(kx, (ky - 1) as nat);
    } else if kx == ky {
        let u = pow2((kx - 24) as nat);
        lemma_pow2_pos((kx - 24) as nat);
        lemma_dre_mono(x, y, u);
        assert(div_round_even(x, u) * u <= div_round_even(y, u) * u) by (nonlinear_arith)
            requires
                div_round_even(x, u) <= div_round_even(y, u),
        ;
    } else {
        lemma_pow2_le(kx, (ky - 1) as nat);
    }
}

// ─── Quotients as f32 ───────────────────────────────────────────────────────

/// `2^e2 >= 2 * 2^e` for `e < e2`.
proof fn lemma_pow2_double_le(e: nat, e2: nat)
    requires
        e < e2,
    ensures
        pow2(e2) >= 2 * pow2(e),
        pow2(e) >= 1,
{
    lemma_pow2_le(e + 1, e2);
    assert(pow2(e + 1) == 2 * pow2(e));
    lemma_pow2_pos(e);
}

/// The exponent puts the scaled quotient in `[2^23, 2^24)`.
pub proof fn lemma_quot_exp(a: nat, b: nat)
    requires
        0 < a <= b,
    ensures
        pow2(23) * b <= a * pow2(quot_exp(a, b)) < pow2(24) * b,
        quot_exp(a, b) <= 24 + bit_len(b),
{
    let la = bit_len(a);
    let lb = bit_len(b);
    lemma_bit_len_mono(a, b);
    lemma_bit_len_range(a);
    lemma_bit_len_range(b);
    let e0 = (24 + lb - la) as nat;
    let pe = pow2(e0);
    let aa = a * pe;
    let p23 = pow2(23);
    let p24 = pow2(24);
    assert(p24 == 16777216 && p23 == 8388608) by {
        reveal_with_fuel(pow2, 25);
    }
    assert(aa >= p23 * pow2(lb)) by {
        lemma_pow2_add((la - 1) as nat, e0);
        lemma_pow2_add(23, lb);
        assert((la - 1) + e0 == 23 + lb);
        assert(pow2((la - 1) as nat) * pe <= aa) by (nonlinear_arith)
            requires
                pow2((la - 1) as nat) <= a,
                aa == a * pe,
        ;
    }
    assert(p23 * b < p23 * pow2(lb)) by (nonlinear_arith)
        requires
            b < pow2(lb),
            p23 > 0,
    ;
    assert(aa < 2 * (p24 * b)) by {
        lemma_pow2_add(la, e0);
        lemma_pow2_add(24, (lb - 1) as nat);
        assert(la + e0 == 24 + (lb - 1) + 1);
        assert(pow2((la + e0) as nat) == 2 * pow2((24 + (lb - 1)) as nat));
        lemma_pow2_pos(e0);
        assert(aa < pow2(la) * pe) by (nonlinear_arith)
            requires
                a < pow2(la),
                aa == a * pe,
                pe >= 1,
        ;
        assert(p24 * pow2((lb - 1) as nat) <= p24 * b) by (nonlinear_arith)
            requires
                pow2((lb - 1) as nat) <= b,
                p24 > 0,
        ;
    }
    if e0 >= 1 && aa >= p24 * b {
        let e = (e0 - 1) as nat;
        assert(pe == 2 * pow2(e));
        assert(aa == 2 * (a * pow2(e))) by (nonlinear_arith)
            requires
                pe == 2 * pow2(e),
                aa == a * pe,
        ;
        assert(quot_exp(a, b) == e);
        let x = a * pow2(e);
        assert(p23 * b <= x < p24 * b) by (nonlinear_arith)
            requires
                aa == 2 * x,
                aa >= p24 * b,
                aa < 2 * (p24 * b),
                p24 == 2 * p23,
        ;
    } else {
        assert(quot_exp(a, b) == e0);
        assert(p23 * b <= aa);
        assert(aa < p24 * b);
    }
}

/// The significand lies in `[2^23, 2^24]`.
pub proof fn lemma_quot_sig(a: nat, b: nat)
    requires
        0 < a <= b,
    ensures
        pow2(23) <= quot_sig(a, b) <= pow2(24),
{
    lemma_quot_exp(a, b);
    let num = a * pow2(quot_exp(a, b));
    lemma_dre_bounds(num, b);
    let q = num / b;
    assert(q < pow2(24)) by (nonlinear_arith)
        requires
            q * b <= num,
            num < pow2(24) * b,
            b > 0,
    ;
    assert(q >= pow2(23)) by (nonlinear_arith)
        requires
            num < (q + 1) * b,
            pow2(23) * b <= num,
            b > 0,
    ;
}

/// Two quotients equal as fractions have the same exponent.
proof fn lemma_quot_exp_unique(a: nat, b: nat, a2: nat, b2: nat)
    requires
        0 < a <= b,
        0 < a2 <= b2,
        a * b2 == a2 * b,
    ensures
        quot_exp(a, b) == quot_exp(a2, b2),
{
    let e = quot_exp(a, b);
    let e2 = quot_exp(a2, b2);
    lemma_quot_exp(a, b);
    lemma_quot_exp(a2, b2);
    assert(pow2(24) == 2 * pow2(23));
    if e < e2 {
        lemma_pow2_double_le(e, e2);
        let p = pow2(e);
        let p2 = pow2(e2);
        assert(false) by (nonlinear_arith)
            requires
                pow2(23) * b <= a * p < pow2(24) * b,
                pow2(23) * b2 <= a2 * p2 < pow2(24) * b2,
                a * b2 == a2 * b,
                p2 >= 2 * p,
                pow2(24) == 2 * pow2(23),
                b > 0,
                b2 > 0,
                p > 0,
        ;
    } else if e2 < e {
        lemma_pow2_double_le(e2, e);
        let p = pow2(e);
        let p2 = pow2(e2);
        assert(false) by (nonlinear_arith)
            requires
                pow2(23) * b <= a * p < pow2(24) * b,
                pow2(23) * b2 <= a2 * p2 < pow2(24) * b2,
                a * b2 == a2 * b,
                p >= 2 * p2,
                pow2(24) == 2 * pow2(23),
                b > 0,
                b2 > 0,
                p2 > 0,
        ;
    }
}

/// Scaling both operands by `k` leaves the rounded quotient unchanged.
pub proof fn lemma_quot_scale(a: nat, b: nat, k: nat)
    requires
        0 < a <= b,
        k >= 1,
    ensures
        quot_exp(k * a, k * b) == quot_exp(a, b),
        quot_sig(k * a, k * b) == quot_sig(a, b),
{
    assert(0 < k * a <= k * b && a * (k * b) == (k * a) * b) by (nonlinear_arith)
        requires
            0 < a <= b,
            k >= 1,
    ;
    lemma_quot_exp_unique(a, b, k * a, k * b);
    let p = pow2(quot_exp(a, b));
    assert((k * a) * p == k * (a * p)) by (nonlinear_arith);
    lemma_dre_scale(a * p, b, k);
}

/// A smaller numerator gives a rounded quotient that is no larger.
pub proof fn lemma_quot_mono(c2: nat, c1: nat, d: nat)
    requires
        0 < c2 <= c1 <= d,
    ensures
        quot_sig(c2, d) * pow2(quot_exp(c1, d)) <= quot_sig(c1, d) * pow2(quot_exp(c2, d)),
{
    let e1 = quot_exp(c1, d);
    let e2 = quot_exp(c2, d);
    lemma_quot_exp(c1, d);
    lemma_quot_exp(c2, d);
    lemma_quot_sig(c1, d);
    lemma_quot_sig(c2, d);
    let s1 = quot_sig(c1, d);
    let s2 = quot_sig(c2, d);
    let p1 = pow2(e1);
    let p2 = pow2(e2);
    assert(pow2(24) == 2 * pow2(23));
    if e2 < e1 {
        lemma_pow2_double_le(e2, e1);
        assert(false) by (nonlinear_arith)
            requires
                pow2(23) * d <= c2 * p2,
                c1 * p1 < pow2(24) * d,
                c2 <= c1,
                p1 >= 2 * p2,
                pow2(24) == 2 * pow2(23),
                p2 > 0,
        ;
    } else if e2 == e1 {
        assert(c2 * p1 <= c1 * p1) by (nonlinear_arith)
            requires
                c2 <= c1,
        ;
        lemma_dre_mono(c2 * p1, c1 * p1, d);
        assert(s2 * p1 <= s1 * p1) by (nonlinear_arith)
            requires
                s2 <= s1,
        ;
    } else {
        lemma_pow2_double_le(e1, e2);
        assert(s2 * p1 <= s1 * p2) by (nonlinear_arith)
            requires
                s2 <= pow2(24),
                pow2(23) <= s1,
                p2 >= 2 * p1,
                pow2(24) == 2 * pow2(23),
                p1 > 0,
        ;
    }
}

/// If `a / b` reaches the threshold `c1 / d`, it reaches every smaller
/// threshold `c2 / d`.
pub proof fn lemma_quot_ge_smaller(a: nat, b: nat, c2: nat, c1: nat, d: nat)
    requires
        0 < a <= b,
        0 < c2 <= c1 <= d,
        quot_ge(a, b, c1, d),
    ensures
        quot_ge(a, b, c2, d),
{
    lemma_quot_mono(c2, c1, d);
    let sa = quot_sig(a, b);
    let s1 = quot_sig(c1, d);
    let s2 = quot_sig(c2, d);
    let pa = pow2(quot_exp(a, b));
    let p1 = pow2(quot_exp(c1, d));
    let p2 = pow2(quot_exp(c2, d));
    lemma_pow2_pos(quot_exp(a, b));
    lemma_pow2_pos(quot_exp(c1, d));
    lemma_pow2_pos(quot_exp(c2, d));
    assert(sa * p2 >= s2 * pa) by (nonlinear_arith)
        requires
            sa * p1 >= s1 * pa,
            s2 * p1 <= s1 * p2,
            p1 > 0,
            p2 > 0,
            pa > 0,
    ;
}

// ─── Executable model ───────────────────────────────────────────────────────

/// Powers of two used as bounds.
pub proof fn lemma_pow2_values()
    ensures
        pow2(23) == 8388608,
        pow2(24) == 16777216,
        pow2(68) == 295147905179352825856,
        pow2(92) == 4951760157141521099596496896,
        pow2(116) == 83076749736557242056487941267521536,
        pow2(64) == 0x1_0000_0000_0000_0000,
{
    assert(pow2(25) == 33554432 && pow2(24) == 16777216 && pow2(23) == 8388608 && pow2(18)
        == 262144 && pow2(17) == 131072) by {
        reveal_with_fuel(pow2, 26);
    }
    lemma_pow2_add(25, 25);
    assert(pow2(50) == 1125899906842624);
    lemma_pow2_add(50, 18);
    lemma_pow2_add(25, 17);
    assert(pow2(42) == 4398046511104);
    lemma_pow2_add(50, 42);
    assert(pow2(92) == 4951760157141521099596496896);
    lemma_pow2_add(92, 24);
    assert(pow2(116) == 83076749736557242056487941267521536);
    assert(pow2(14) == 16384) by {
        reveal_with_fuel(pow2, 15);
    }
    lemma_pow2_add(50, 14);
}

/// An integer below 2^64 converts to an `f32` below 2^68.
pub proof fn lemma_round24_below(n: nat)
    requires
        0 < n < 0x1_0000_0000_0000_0000,
    ensures
        1 <= round24(n) < pow2(68),
{
    lemma_pow2_values();
    lemma_round24_bounds(n);
    lemma_bit_len_bound(n, 64);
    lemma_pow2_le(bit_len(n), 64);
}

/// The number of binary digits of `n`.
fn bit_length(n: u128) -> (k: u32)
    requires
        n < pow2(68),
    ensures
        k == bit_len(n as nat),
        k <= 68,
{
    proof {
        lemma_bit_len_bound(n as nat, 68);
    }
    let mut x = n;
    let mut k: u32 = 0;
    while x > 0
        invariant
            bit_len(n as nat) == k + bit_len(x as nat),
            bit_len(n as nat) <= 68,
        decreases x,
    {
        x = x / 2;
        k = k + 1;
    }
    k
}

/// `2^e`.
fn pow2_u128(e: u32) -> (r: u128)
    requires
        e <= 116,
    ensures
        r == pow2(e as nat),
{
    proof {
        lemma_pow2_values();
    }
    let mut r: u128 = 1;
    let mut j: u32 = 0;
    while j < e
        invariant
            j <= e <= 116,
            r == pow2(j as nat),
            pow2(116) == 83076749736557242056487941267521536,
        decreases e - j,
    {
        proof {
            lemma_pow2_le((j + 1) as nat, 116);
        }
        assert(pow2((j + 1) as nat) == 2 * pow2(j as nat));
        r = r * 2;
        j = j + 1;
    }
    r
}

/// `n` as an `f32` holds it (`round24`).
pub fn round24_exec(n: u128) -> (r: u128)
    requires
        n < pow2(68),
    ensures
        r == round24(n as nat),
        r <= pow2(68),
{
    proof {
        lemma_pow2_values();
    }
    if n == 0 {
        assert(bit_len(0) == 0);
        return 0;
    }
    let k = bit_length(n);
    proof {
        lemma_round24_bounds(n as nat);
        lemma_pow2_le(k as nat, 68);
    }
    if k <= 24 {
        return n;
    }
    let u = pow2_u128(k - 24);
    proof {
        lemma_pow2_le((k - 24) as nat, 68);
        lemma_pow2_pos((k - 24) as nat);
    }
    let q = n / u;
    let rem = n % u;
    let q2 = if 2 * rem > u || (2 * rem == u && q % 2 == 1) {
        q + 1
    } else {
        q
    };
    assert(q2 == div_round_even(n as nat, u as nat));
    q2 * u
}

/// The rounded quotient `a / b` as its significand and exponent.
fn quot_exec(a: u128, b: u128) -> (res: (u128, u32))
    requires
        0 < a <= b,
        b < pow2(68),
    ensures
        res.0 == quot_sig(a as nat, b as nat),
        res.1 == quot_exp(a as nat, b as nat),
        res.0 <= pow2(24),
        res.1 <= 92,
{
    proof {
        lemma_pow2_values();
        lemma_bit_len_mono(a as nat, b as nat);
        lemma_bit_len_range(a as nat);
        lemma_quot_sig(a as nat, b as nat);
    }
    let la = bit_length(a);
    let lb = bit_length(b);
    let e0 = 24 + lb - la;
    let pe = pow2_u128(e0);
    proof {
        lemma_pow2_pos(e0 as nat);
        lemma_pow2_add(la as nat, e0 as nat);
        lemma_pow2_le((24 + lb) as nat, 92);
        assert(a * pe < pow2(la as nat) * pe) by (nonlinear_arith)
            requires
                a < pow2(la as nat),
                pe >= 1,
        ;
        lemma_pow2_pos(e0 as nat);
    }
    let aa = a * pe;
    let t = 16777216 * b;
    let mut e = e0;
    let mut num = aa;
    if e0 >= 1 && aa >= t {
        e = e0 - 1;
        num = aa / 2;
        assert(pe == 2 * pow2(e as nat));
        assert(aa == 2 * (a * pow2(e as nat))) by (nonlinear_arith)
            requires
                pe == 2 * pow2(e as nat),
                aa == a * pe,
        ;
    }
    assert(e == quot_exp(a as nat, b as nat));
    assert(num == a * pow2(e as nat));
    let q = num / b;
    let rem = num % b;
    let m = if 2 * rem > b || (2 * rem == b && q % 2 == 1) {
        q + 1
    } else {
        q
    };
    (m, e)
}

/// Whether the rounded quotient `a / b` is at least the rounded quotient
/// `c / d` (`quot_ge`).
pub fn quot_ge_exec(a: u128, b: u128, c: u128, d: u128) -> (r: bool)
    requires
        a <= b,
        c <= d,
        0 < b < pow2(68),
        0 < d < pow2(68),
    ensures
        r == quot_ge(a as nat, b as nat, c as nat, d as nat),
{
    if a == 0 {
        return c == 0;
    }
    if c == 0 {
        return true;
    }
    let (m1, e1) = quot_exec(a, b);
    let (m2, e2) = quot_exec(c, d);
    let p1 = pow2_u128(e2);
    let p2 = pow2_u128(e1);
    proof {
        lemma_pow2_values();
        lemma_pow2_le(e2 as nat, 92);
        lemma_pow2_le(e1 as nat, 92);
        assert(m1 * p1 <= pow2(24) * pow2(92)) by (nonlinear_arith)
            requires
                m1 <= pow2(24),
                p1 <= pow2(92),
        ;
        assert(m2 * p2 <= pow2(24) * pow2(92)) by (nonlinear_arith)
            requires
                m2 <= pow2(24),
                p2 <= pow2(92),
        ;
    }
    m1 * p1 >= m2 * p2
}

} // verus!
