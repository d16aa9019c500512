//! Writing milliseconds as seconds.
use vstd::prelude::*;
use vstd::arithmetic::power2::{pow2, lemma_pow2_unfold, lemma_pow2_strictly_increases, lemma2_to64, lemma2_to64_rest};
use crate::text::{decimal, zero_padded, push_decimal, push_zero_padded, strip_suffixes, strip_suffixes_vec};

verus! {

/// `10^n` for `n <= 3`.
pub open spec fn pow10(n: nat) -> nat {
    if n == 0 { 1 } else if n == 1 { 10 } else if n == 2 { 100 } else { 1000 }
}

/// `a / b` rounded to the nearest whole number, a half going to the even
/// neighbour.
pub open spec fn div_half_even(a: nat, b: nat) -> nat {
    let q = a / b;
    let r = a % b;
    if 2 * r < b {
        q
    } else if 2 * r > b {
        q + 1
    } else if q % 2 == 0 {
        q
    } else {
        q + 1
    }
}

/// `2^52 * 1000`: a value `a / 1000` scaled into `[2^52, 2^53)` has a whole
/// 53-bit mantissa.
pub open spec fn mantissa_low() -> nat {
    4503599627370496000
}

/// `2^53 * 1000`.
pub open spec fn mantissa_high() -> nat {
    9007199254740992000
}

/// The smallest `k` from `k` on (at most 62) with `a * 2^k >= 2^52 * 1000`.
pub open spec fn mantissa_shift(a: nat, k: nat) -> nat
    decreases 62 - k,
{
    if k >= 62 || a * pow2(k) >= mantissa_low() {
        k
    } else {
        mantissa_shift(a, k + 1)
    }
}

/// `a / 1000` as the nearest `f64` holds it, rounded (halves to even) to
/// `places` decimals and written as a whole number of `10^-places` units: the
/// double is `m / 2^k` with the 53-bit mantissa
/// `m = round_half_even(a * 2^k / 1000)`, `k` putting `a * 2^k / 1000` in
/// `[2^52, 2^53)` (`m * 2` or `m * 4`, `m = round_half_even(a / 2000)` or
/// `round_half_even(a / 4000)`, above `2^53`).
pub open spec fn scaled_digits(a: nat, places: nat) -> nat {
    if a >= 2 * mantissa_high() {
        div_half_even(a, 4000) * 4 * pow10(places)
    } else if a >= mantissa_high() {
        div_half_even(a, 2000) * 2 * pow10(places)
    } else {
        let k = mantissa_shift(a, 0);
        div_half_even(div_half_even(a * pow2(k), 1000) * pow10(places), pow2(k))
    }
}

/// `ms` milliseconds written as seconds with `places` decimals (`places <= 3`)
/// as `{:.places}` writes the `f64` nearest to `ms / 1000`: the exact value of
/// that double rounded to `places` decimals, a half going to the even digit,
/// with a `-` for negative values.
pub open spec fn fixed(ms: int, places: nat) -> Seq<char> {
    let a = if ms < 0 { -ms } else { ms };
    let q = scaled_digits(a as nat, places);
    let sign = if ms < 0 { seq!['-'] } else { seq![] };
    if places == 0 {
        sign + decimal(q)
    } else {
        sign + decimal(q / pow10(places)) + seq!['.'] + zero_padded(q % pow10(places), places)
    }
}

/// `ms` milliseconds written as seconds with no more decimals than needed:
/// `120000` is `120`, `12500` is `12.5`, with a `-` for negative values. For
/// values of up to 15 significant digits this is what `Display` writes for the
/// `f64` nearest to `ms / 1000`, whose shortest round-trip form it is.
pub open spec fn shortest(ms: int) -> Seq<char> {
    let a = if ms < 0 { -ms } else { ms };
    let sign = if ms < 0 { seq!['-'] } else { seq![] };
    let whole = decimal((a / 1000) as nat);
    if a % 1000 == 0 {
        sign + whole
    } else {
        sign + whole + seq!['.'] + strip_suffixes(zero_padded((a % 1000) as nat, 3), seq!['0'])
    }
}

fn half_even_div(a: u128, b: u128) -> (r: u128)
    requires
        0 < b <= 0x1_0000_0000_0000_0000_0000,
        a < 0x8000_0000_0000_0000_0000_0000_0000_0000,
    ensures
        r == div_half_even(a as nat, b as nat),
        r <= a / b + 1,
{
    let q = a / b;
    let r = a % b;
    if 2 * r < b {
        q
    } else if 2 * r > b {
        q + 1
    } else if q % 2 == 0 {
        q
    } else {
        q + 1
    }
}

/// `scaled_digits(a, places)`.
fn scaled(a: u128, places: usize) -> (r: u128)
    requires
        places <= 3,
        a <= 0x1_0000_0000_0000_0000,
    ensures
        r == scaled_digits(a as nat, places as nat),
        r <= 0x1_0000_0000_0000_0000_0000_0000,
{
    let p10: u128 = if places == 0 { 1 } else if places == 1 { 10 } else if places == 2 { 100 } else { 1000 };
    if a >= 18014398509481984000 {
        let m = half_even_div(a, 4000);
        assert(m * 4 * p10 <= 0x1_0000_0000_0000_0000 + 4000) by (nonlinear_arith)
            requires
                m <= a / 4000 + 1,
                a <= 0x1_0000_0000_0000_0000,
                p10 <= 1000,
        ;
        return m * 4 * p10;
    }
    if a >= 9007199254740992000 {
        let m = half_even_div(a, 2000);
        assert(m * 2 * p10 <= 0x1_0000_0000_0000_0000 + 2000) by (nonlinear_arith)
            requires
                m <= a / 2000 + 1,
                a <= 0x1_0000_0000_0000_0000,
                p10 <= 1000,
        ;
        return m * 2 * p10;
    }
    let mut k: u32 = 0;
    let mut p: u128 = 1;
    proof {
        lemma2_to64();
        lemma2_to64_rest();
    }
    while k < 62 && a * p < 4503599627370496000
        invariant
            a < 9007199254740992000,
            k <= 62,
            p == pow2(k as nat),
            1 <= p <= 0x4000_0000_0000_0000,
            a * p < 9007199254740992000,
            mantissa_shift(a as nat, 0) == mantissa_shift(a as nat, k as nat),
        decreases 62 - k,
    {
        proof {
            lemma_pow2_unfold((k + 1) as nat);
            if k < 61 {
                lemma_pow2_strictly_increases(k as nat, 61);
            }
            lemma2_to64_rest();
            assert(a * (p * 2) == 2 * (a * p)) by (nonlinear_arith);
        }
        p = p * 2;
        k = k + 1;
    }
    assert(mantissa_shift(a as nat, k as nat) == k);
    let m = half_even_div(a * p, 1000);
    assert(m * p10 <= 9007199254740992000 + 1000) by (nonlinear_arith)
        requires
            m <= (a * p) / 1000 + 1,
            a * p < 9007199254740992000,
            p10 <= 1000,
    ;
    let q = half_even_div(m * p10, p);
    assert(q <= m * p10 + 1) by (nonlinear_arith)
        requires
            q <= ((m * p10) as int) / (p as int) + 1,
            p >= 1,
    ;
    q
}

/// Appends `fixed(ms, places)` to `out`.
pub fn push_fixed(out: &mut Vec<char>, ms: i128, places: usize)
    requires
        places <= 3,
        -0x1_0000_0000_0000_0000 <= ms <= 0x1_0000_0000_0000_0000,
    ensures
        final(out)@ == old(out)@ + fixed(ms as int, places as nat),
{
    let a: u128 = if ms < 0 { (-ms) as u128 } else { ms as u128 };
    let q: u128 = scaled(a, places);
    if ms < 0 {
        out.push('-');
    }
    let ghost after_sign = out@;
    if places == 0 {
        push_decimal(out, q);
    } else {
        let p: u128 = if places == 1 { 10 } else if places == 2 { 100 } else { 1000 };
        push_decimal(out, q / p);
        out.push('.');
        push_zero_padded(out, q % p, places);
    }
    proof {
        let sign = if ms < 0 { seq!['-'] } else { Seq::<char>::empty() };
        assert(after_sign == old(out)@ + sign);
    }
}

/// Appends `shortest(ms)` to `out`.
pub fn push_shortest(out: &mut Vec<char>, ms: i128)
    requires
        -0x1_0000_0000_0000_0000_0000 <= ms <= 0x1_0000_0000_0000_0000_0000,
    ensures
        final(out)@ == old(out)@ + shortest(ms as int),
{
    let a: u128 = if ms < 0 { (-ms) as u128 } else { ms as u128 };
    if ms < 0 {
        out.push('-');
    }
    let ghost after_sign = out@;
    push_decimal(out, a / 1000);
    if a % 1000 != 0 {
        out.push('.');
        let mut frac: Vec<char> = Vec::new();
        push_zero_padded(&mut frac, a % 1000, 3);
        let zero = ['0'];
        assert(zero@ == seq!['0']);
        let trimmed = strip_suffixes_vec(frac.as_slice(), &zero);
        crate::text::push_all(out, trimmed.as_slice());
    }
    proof {
        let sign = if ms < 0 { seq!['-'] } else { Seq::<char>::empty() };
        assert(after_sign == old(out)@ + sign);
    }
}

} // verus!
