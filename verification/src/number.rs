//! Parsing of decimal numbers: unsigned integers and seconds given with a
//! decimal fraction, the latter read as whole milliseconds.
use vstd::prelude::*;
use crate::text::{is_digit, digit_value, find_first, find, occurs_at};

verus! {

/// The value of a sequence of ASCII digits.
pub open spec fn digits_value(s: Seq<char>) -> nat
    decreases s.len(),
{
    if s.len() == 0 {
        0
    } else {
        (digits_value(s.drop_last()) * 10 + digit_value(s.last())) as nat
    }
}

/// Every character of `s` is an ASCII digit.
pub open spec fn all_digits(s: Seq<char>) -> bool {
    forall|i: int| 0 <= i < s.len() ==> is_digit(#[trigger] s[i])
}

/// A prefix of a digit string has a value no larger than the whole.
pub proof fn lemma_digits_value_prefix(s: Seq<char>, k: int)
    requires
        0 <= k <= s.len(),
        all_digits(s),
    ensures
        digits_value(s.take(k)) <= digits_value(s),
    decreases s.len() - k,
{
    if k < s.len() {
        assert(s.drop_last().take(k) == s.take(k));
        assert(is_digit(s[s.len() - 1]));
        lemma_digits_value_prefix(s.drop_last(), k);
    } else {
        assert(s.take(k) == s);
    }
}

/// What `str::parse::<u32>` gives: an optional `+`, then one or more ASCII
/// digits whose value fits in a `u32`.
pub open spec fn u32_text_value(s: Seq<char>) -> Option<u32> {
    let body = if s.len() > 0 && s[0] == '+' { s.drop_first() } else { s };
    if body.len() > 0 && all_digits(body) && digits_value(body) <= u32::MAX {
        Some(digits_value(body) as u32)
    } else {
        None
    }
}

/// Accumulates the digits of `v[lo..hi]` into a `u128`; `None` once the value
/// exceeds `limit`, or at the first non-digit.
fn digits_upto(v: &[char], lo: usize, hi: usize, limit: u128) -> (r: Option<u128>)
    requires
        lo <= hi <= v@.len(),
        limit <= 0x1_0000_0000_0000_0000_0000_0000_0000,
    ensures
        match r {
            Some(x) => all_digits(v@.subrange(lo as int, hi as int)) && x == digits_value(
                v@.subrange(lo as int, hi as int),
            ) && x <= limit,
            None => !all_digits(v@.subrange(lo as int, hi as int)) || digits_value(
                v@.subrange(lo as int, hi as int),
            ) > limit,
        },
{
    let mut acc: u128 = 0;
    let mut i = lo;
    while i < hi
        invariant
            lo <= i <= hi <= v@.len(),
            all_digits(v@.subrange(lo as int, i as int)),
            acc == digits_value(v@.subrange(lo as int, i as int)),
            acc <= limit,
            limit <= 0x1_0000_0000_0000_0000_0000_0000_0000,
        decreases hi - i,
    {
        let c = v[i];
        let ghost pre = v@.subrange(lo as int, i as int);
        let ghost next = v@.subrange(lo as int, i + 1);
        assert(next.drop_last() == pre);
        assert(next.last() == c);
        if !('0' <= c && c <= '9') {
            assert(!is_digit(next[i - lo]));
            proof {
                assert(v@.subrange(lo as int, hi as int)[i - lo] == c);
            }
            return None;
        }
        let d = (c as u32 - 48) as u128;
        assert(d == digit_value(c));
        let wide: u128 = acc * 10 + d;
        if wide > limit {
            proof {
                assert(digits_value(next) == acc * 10 + d);
                let whole = v@.subrange(lo as int, hi as int);
                if all_digits(whole) {
                    assert(whole.take(i + 1 - lo) == next);
                    lemma_digits_value_prefix(whole, i + 1 - lo);
                }
            }
            return None;
        }
        acc = acc * 10 + d;
        i = i + 1;
    }
    Some(acc)
}


/// Parses `v` as `str::parse::<u32>` does.
pub fn parse_u32(v: &[char]) -> (r: Option<u32>)
    ensures
        r == u32_text_value(v@),
{
    let lo: usize = if v.len() > 0 && v[0] == '+' { 1 } else { 0 };
    assert(v@.subrange(lo as int, v@.len() as int) == (if v@.len() > 0 && v@[0] == '+' { v@.drop_first() } else { v@ }));
    if lo == v.len() {
        return None;
    }
    match digits_upto(v, lo, v.len(), u32::MAX as u128) {
        Some(x) => Some(x as u32),
        None => None,
    }
}

/// Whether every character of `v` is an ASCII digit.
pub fn all_ascii_digits(v: &[char]) -> (r: bool)
    ensures
        r == all_digits(v@),
{
    let mut i: usize = 0;
    while i < v.len()
        invariant
            i <= v@.len(),
            forall|k: int| 0 <= k < i ==> is_digit(#[trigger] v@[k]),
        decreases v@.len() - i,
    {
        if !('0' <= v[i] && v[i] <= '9') {
            return false;
        }
        i = i + 1;
    }
    true
}

/// The digits before and after the first `.` of `body`.
pub open spec fn split_at_dot(body: Seq<char>) -> (Seq<char>, Seq<char>) {
    match find_first(body, seq!['.']) {
        Some(d) => (body.take(d), body.skip(d + 1)),
        None => (body, Seq::<char>::empty()),
    }
}

/// `10^n`.
pub open spec fn ten_pow(n: nat) -> nat
    decreases n,
{
    if n == 0 { 1 } else { 10 * ten_pow((n - 1) as nat) }
}

/// `c` in ASCII lower case.
pub open spec fn ascii_lower(c: char) -> char {
    if 'A' <= c <= 'Z' { ((c as u32) + 32) as char } else { c }
}

/// `s` is the lower-case ASCII word `w`, ignoring ASCII case.
pub open spec fn is_word_ignoring_case(s: Seq<char>, w: Seq<char>) -> bool {
    s.len() == w.len() && forall|i: int| 0 <= i < s.len() ==> ascii_lower(#[trigger] s[i]) == w[i]
}

/// The position of the first `e` or `E` of `s` (its length when there is none).
pub open spec fn exp_pos(s: Seq<char>) -> nat
    decreases s.len(),
{
    if s.len() == 0 {
        0
    } else if s[0] == 'e' || s[0] == 'E' {
        0
    } else {
        1 + exp_pos(s.drop_first())
    }
}

/// The value of an exponent: an optional sign and one or more digits.
pub open spec fn exponent_of(x: Seq<char>) -> Option<int> {
    let neg = x.len() > 0 && x[0] == '-';
    let d = if x.len() > 0 && (x[0] == '+' || x[0] == '-') { x.drop_first() } else { x };
    if d.len() > 0 && all_digits(d) {
        Some(if neg { -digits_value(d) } else { digits_value(d) as int })
    } else {
        None
    }
}

/// `d * 10^s`, cut down to a whole number.
pub open spec fn scaled_value(d: nat, s: int) -> nat {
    if s >= 0 { d * ten_pow(s as nat) } else { d / ten_pow((-s) as nat) }
}

/// The magnitude in whole milliseconds of a number of seconds written without
/// sign: digits with an optional `.` and fraction digits (at least one digit
/// in all), then optionally `e` or `E` and an exponent; digits past the
/// milliseconds are dropped. `None` for any other text.
pub open spec fn magnitude_ms(body: Seq<char>) -> Option<nat> {
    let p = exp_pos(body);
    let mant = body.take(p as int);
    let e = if p < body.len() { exponent_of(body.skip(p as int + 1)) } else { Some(0int) };
    let ip = split_at_dot(mant).0;
    let fp = split_at_dot(mant).1;
    if ip.len() + fp.len() > 0 && all_digits(ip) && all_digits(fp) && e is Some {
        Some(scaled_value(digits_value(ip + fp), e->0 + 3 - fp.len()))
    } else {
        None
    }
}

/// A number of seconds as `str::parse::<f64>` reads it (an optional sign,
/// then `inf`, `infinity` in any ASCII case, or a decimal number with an
/// optional exponent), as whole milliseconds, digits past the milliseconds
/// dropped, and held within the range of `i64` (infinities at its ends).
/// `None` for any other text, and for `nan`, which no `i64` stands for.
pub open spec fn seconds_text_ms(s: Seq<char>) -> Option<i64> {
    let neg = s.len() > 0 && s[0] == '-';
    let body = if s.len() > 0 && (s[0] == '+' || s[0] == '-') { s.drop_first() } else { s };
    if is_word_ignoring_case(body, "inf"@) || is_word_ignoring_case(body, "infinity"@) {
        Some(if neg { i64::MIN } else { i64::MAX })
    } else {
        match magnitude_ms(body) {
            Some(m) => Some(crate::probe::clamp_i64(if neg { -m } else { m as int })),
            None => None,
        }
    }
}

proof fn lemma_ten_pow_pos(a: nat)
    ensures
        ten_pow(a) >= 1,
    decreases a,
{
    if a > 0 {
        lemma_ten_pow_pos((a - 1) as nat);
    }
}

proof fn lemma_ten_pow_mono(a: nat, b: nat)
    requires
        a <= b,
    ensures
        1 <= ten_pow(a) <= ten_pow(b),
    decreases b,
{
    lemma_ten_pow_pos(a);
    if b > a {
        lemma_ten_pow_mono(a, (b - 1) as nat);
    }
}

proof fn lemma_ten_pow_19()
    ensures
        ten_pow(19) == 10000000000000000000,
{
    reveal_with_fuel(ten_pow, 20);
}

/// A digit string of length `n` is worth less than `10^n`.
proof fn lemma_digits_value_below(s: Seq<char>)
    requires
        all_digits(s),
    ensures
        digits_value(s) < ten_pow(s.len()),
    decreases s.len(),
{
    if s.len() > 0 {
        assert(is_digit(s[s.len() - 1]));
        lemma_digits_value_below(s.drop_last());
    }
}

/// Zeros appended multiply the value by ten each.
proof fn lemma_digits_value_zeros_after(s: Seq<char>, j: nat)
    ensures
        digits_value(s + Seq::new(j, |i: int| '0')) == digits_value(s) * ten_pow(j),
    decreases j,
{
    let z = Seq::new(j, |i: int| '0');
    if j > 0 {
        let z1 = Seq::new((j - 1) as nat, |i: int| '0');
        assert((s + z).drop_last() =~= s + z1);
        lemma_digits_value_zeros_after(s, (j - 1) as nat);
        assert((s + z).last() == '0');
        assert(digit_value('0') == 0);
        let a = digits_value(s) as int;
        let b = ten_pow((j - 1) as nat) as int;
        assert(digits_value(s + z) == digits_value(s + z1) * 10);
        assert(digits_value(s + z1) == a * b);
        assert(ten_pow(j) == 10 * b);
        assert(a * b * 10 == a * (10 * b)) by (nonlinear_arith);
    } else {
        assert(s + z =~= s);
        assert(ten_pow(0) == 1);
        assert(digits_value(s) * 1 == digits_value(s));
    }
}

/// Dropping the last `k` digits divides the value by `10^k`.
proof fn lemma_digits_value_take(s: Seq<char>, k: nat)
    requires
        all_digits(s),
        k <= s.len(),
    ensures
        digits_value(s.take(s.len() - k)) == digits_value(s) / ten_pow(k),
    decreases k,
{
    if k == 0 {
        assert(s.take(s.len() as int) =~= s);
        assert(ten_pow(0) == 1);
        assert(digits_value(s) / 1 == digits_value(s));
    } else {
        let t = s.drop_last();
        assert(is_digit(s[s.len() - 1]));
        lemma_digits_value_take(t, (k - 1) as nat);
        assert(t.take(t.len() - (k - 1)) =~= s.take(s.len() - k));
        let x = digits_value(s) as int;
        let y = digits_value(t) as int;
        assert(x / 10 == y) by (nonlinear_arith)
            requires x == y * 10 + digit_value(s.last()), 0 <= digit_value(s.last()) < 10;
        lemma_ten_pow_pos((k - 1) as nat);
        let tp = ten_pow((k - 1) as nat) as int;
        vstd::arithmetic::div_mod::lemma_div_denominator(x, 10, tp);
        assert(ten_pow(k) == 10 * tp);
        assert(digits_value(t.take(t.len() - (k - 1))) == y / tp);
        assert(x / ten_pow(k) as int == (x / 10) / tp);
        assert(digits_value(s.take(s.len() - k)) == y / tp);
    }
}

/// Digits that are all `0` are worth nothing; a digit string with another
/// digit is worth at least one.
proof fn lemma_digits_value_zero(s: Seq<char>)
    requires
        all_digits(s),
    ensures
        (forall|i: int| 0 <= i < s.len() ==> s[i] == '0') ==> digits_value(s) == 0,
        (exists|i: int| 0 <= i < s.len() && s[i] != '0') ==> digits_value(s) >= 1,
    decreases s.len(),
{
    if s.len() > 0 {
        let t = s.drop_last();
        assert(is_digit(s[s.len() - 1]));
        lemma_digits_value_zero(t);
        if exists|i: int| 0 <= i < s.len() && s[i] != '0' {
            let i = choose|i: int| 0 <= i < s.len() && s[i] != '0';
            if i < t.len() {
                assert(t[i] != '0');
            }
        }
        if forall|i: int| 0 <= i < s.len() ==> s[i] == '0' {
            assert(forall|i: int| 0 <= i < t.len() ==> t[i] == s[i]);
            assert(s[s.len() - 1] == '0');
        }
    }
}

/// The parts of `body` before and after its first `.`.
fn split_dot(body: &[char]) -> (r: (Vec<char>, Vec<char>))
    ensures
        r.0@ == split_at_dot(body@).0,
        r.1@ == split_at_dot(body@).1,
{
    let dot = ['.'];
    assert(dot@ == seq!['.']);
    match find(body, &dot) {
        Some(d) => {
            assert(occurs_at(body@, dot@, d as int));
            let n = body.len();
            assert(d + 1 <= n);
            assert(body@.subrange(0, d as int) == body@.take(d as int));
            assert(body@.subrange(d + 1, body@.len() as int) == body@.skip(d + 1));
            (crate::text::sub_vec(body, 0, d), crate::text::sub_vec(body, d + 1, n))
        },
        None => {
            assert(body@.subrange(0, body@.len() as int) == body@);
            (crate::text::sub_vec(body, 0, body.len()), Vec::new())
        },
    }
}

fn lower_ascii(c: char) -> (r: char)
    ensures
        r == ascii_lower(c),
{
    if 'A' <= c && c <= 'Z' {
        ((c as u32 + 32) as u8) as char
    } else {
        c
    }
}

fn word_ignoring_case(v: &[char], w: &str) -> (r: bool)
    ensures
        r == is_word_ignoring_case(v@, w@),
{
    let wv = crate::text::chars_of(w);
    if v.len() != wv.len() {
        return false;
    }
    let mut i: usize = 0;
    while i < v.len()
        invariant
            i <= v@.len(),
            v@.len() == wv@.len(),
            wv@ == w@,
            forall|k: int| 0 <= k < i ==> ascii_lower(#[trigger] v@[k]) == wv@[k],
        decreases v@.len() - i,
    {
        if lower_ascii(v[i]) != wv[i] {
            return false;
        }
        i = i + 1;
    }
    true
}

fn find_exp(v: &[char]) -> (r: usize)
    ensures
        r == exp_pos(v@),
        r <= v@.len(),
{
    let mut i: usize = 0;
    assert(v@.skip(0) =~= v@);
    while i < v.len() && v[i] != 'e' && v[i] != 'E'
        invariant
            i <= v@.len(),
            exp_pos(v@) == i + exp_pos(v@.skip(i as int)),
        decreases v@.len() - i,
    {
        assert(v@.skip(i as int).drop_first() =~= v@.skip(i + 1));
        i = i + 1;
    }
    proof {
        if i < v@.len() {
            assert(v@.skip(i as int)[0] == v@[i as int]);
        }
    }
    i
}

/// An exponent read from its text: its sign, and its magnitude when that is at
/// most `2^70`.
fn parse_exponent(x: &[char]) -> (r: Option<(bool, Option<u128>)>)
    ensures
        r is Some <==> exponent_of(x@) is Some,
        r matches Some((neg, m)) ==> match m {
            Some(k) => exponent_of(x@) == Some(if neg { -(k as int) } else { k as int }) && k <= 0x40_0000_0000_0000_0000,
            None => if neg { exponent_of(x@)->0 < -0x40_0000_0000_0000_0000 } else { exponent_of(x@)->0 > 0x40_0000_0000_0000_0000 },
        },
{
    let neg = x.len() > 0 && x[0] == '-';
    let lo: usize = if x.len() > 0 && (x[0] == '+' || x[0] == '-') { 1 } else { 0 };
    let d = crate::text::sub_vec(x, lo, x.len());
    assert(d@ == (if x@.len() > 0 && (x@[0] == '+' || x@[0] == '-') { x@.drop_first() } else { x@ }));
    if d.len() == 0 || !all_ascii_digits(d.as_slice()) {
        return None;
    }
    assert(d@.subrange(0, d@.len() as int) =~= d@);
    match digits_upto(d.as_slice(), 0, d.len(), 0x40_0000_0000_0000_0000) {
        Some(k) => Some((neg, Some(k))),
        None => Some((neg, None)),
    }
}

/// `v` with `n` zeros appended.
fn with_zeros(v: &Vec<char>, n: usize) -> (r: Vec<char>)
    ensures
        r@ == v@ + Seq::new(n as nat, |i: int| '0'),
{
    let mut r = crate::text::sub_vec(v.as_slice(), 0, v.len());
    assert(v@.subrange(0, v@.len() as int) =~= v@);
    let mut k: usize = 0;
    while k < n
        invariant
            k <= n,
            r@ == v@ + Seq::new(k as nat, |i: int| '0'),
        decreases n - k,
    {
        r.push('0');
        k = k + 1;
        assert(r@ =~= v@ + Seq::new(k as nat, |i: int| '0'));
    }
    r
}

/// Whether every character of `v` is `0`.
fn all_zero(v: &[char]) -> (r: bool)
    ensures
        r == forall|i: int| 0 <= i < v@.len() ==> v@[i] == '0',
{
    let mut i: usize = 0;
    while i < v.len()
        invariant
            i <= v@.len(),
            forall|k: int| 0 <= k < i ==> v@[k] == '0',
        decreases v@.len() - i,
    {
        if v[i] != '0' {
            return false;
        }
        i = i + 1;
    }
    true
}

/// `m` with a sign, held within `i64`; `None` stands for a magnitude above `i64::MAX`.
fn signed_ms(neg: bool, m: Option<u128>) -> (r: i64)
    requires
        m matches Some(x) ==> x <= i64::MAX,
    ensures
        match m {
            Some(x) => r == crate::probe::clamp_i64(if neg { -(x as int) } else { x as int }),
            None => r == (if neg { i64::MIN } else { i64::MAX }),
        },
{
    match m {
        Some(x) => if neg { -(x as i64) } else { x as i64 },
        None => if neg { i64::MIN } else { i64::MAX },
    }
}

/// `scaled_value(digits_value(all), s)` when it is at most `i64::MAX`, else `None`.
fn scaled_ms(all: &Vec<char>, s: i128) -> (r: Option<u128>)
    requires
        all_digits(all@),
        -0x1_0000_0000_0000_0000_0000 < s < 19,
    ensures
        match r {
            Some(x) => x == scaled_value(digits_value(all@), s as int) && x <= i64::MAX,
            None => scaled_value(digits_value(all@), s as int) > i64::MAX,
        },
{
    let ghost d = digits_value(all@);
    let t: Vec<char> = if s >= 0 {
        proof {
            lemma_digits_value_zeros_after(all@, s as nat);
        }
        with_zeros(all, s as usize)
    } else {
        if (-s) as u128 >= all.len() as u128 {
            proof {
                lemma_digits_value_below(all@);
                lemma_ten_pow_mono(all@.len(), (-s) as nat);
                assert(d / ten_pow((-s) as nat) == 0) by (nonlinear_arith)
                    requires d < ten_pow((-s) as nat);
            }
            return Some(0);
        }
        let k = (-s) as usize;
        proof {
            lemma_digits_value_take(all@, k as nat);
        }
        crate::text::sub_vec(all.as_slice(), 0, all.len() - k)
    };
    assert(digits_value(t@) == scaled_value(d, s as int));
    assert(all_digits(t@)) by {
        assert forall|i: int| 0 <= i < t@.len() implies is_digit(#[trigger] t@[i]) by {
            if i < all@.len() {
                assert(t@[i] == all@[i]);
            }
        }
    }
    assert(t@.subrange(0, t@.len() as int) =~= t@);
    digits_upto(t.as_slice(), 0, t.len(), i64::MAX as u128)
}

/// The milliseconds of digits `all` (not all `0`) shifted by `10^shift`, the
/// shift given exactly or, when `None`, known to exceed `2^70 - 2^64`.
fn shifted_ms(all: &Vec<char>, shift: Option<i128>, ghost_s: Ghost<int>) -> (r: Option<u128>)
    requires
        all_digits(all@),
        digits_value(all@) >= 1,
        match shift {
            Some(x) => x == ghost_s@ && x > -0x1_0000_0000_0000_0000_0000,
            None => ghost_s@ >= 19,
        },
    ensures
        match r {
            Some(x) => x == scaled_value(digits_value(all@), ghost_s@) && x <= i64::MAX,
            None => scaled_value(digits_value(all@), ghost_s@) > i64::MAX,
        },
{
    let ghost d = digits_value(all@);
    let ghost s = ghost_s@;
    match shift {
        Some(x) => {
            if x < 19 && x > -0x1_0000_0000_0000_0000_0000 {
                return scaled_ms(all, x);
            }
        },
        None => {},
    }
    proof {
        lemma_ten_pow_19();
        lemma_ten_pow_mono(19, s as nat);
        assert(d * ten_pow(s as nat) >= ten_pow(s as nat)) by (nonlinear_arith)
            requires d >= 1;
    }
    None
}

/// The magnitude of an unsigned number of seconds (see `magnitude_ms`): the
/// outer `None` when it is not such a number, the inner `None` when it is
/// above `i64::MAX`.
fn magnitude(body: &[char]) -> (r: Option<Option<u128>>)
    ensures
        match magnitude_ms(body@) {
            None => r is None,
            Some(m) => r matches Some(x) && match x {
                Some(k) => k == m && k <= i64::MAX,
                None => m > i64::MAX,
            },
        },
{
    let p = find_exp(body);
    let mant = crate::text::sub_vec(body, 0, p);
    assert(mant@ == body@.take(p as int));
    let exp: Option<(bool, Option<u128>)> = if p < body.len() {
        let rest = crate::text::sub_vec(body, p + 1, body.len());
        assert(rest@ == body@.skip(p + 1));
        match parse_exponent(rest.as_slice()) {
            None => return None,
            Some(x) => Some(x),
        }
    } else {
        None
    };
    let ghost e: int = if p < body@.len() { exponent_of(body@.skip(p + 1))->0 } else { 0 };
    let (ip, fp) = split_dot(mant.as_slice());
    if ip.len() == 0 && fp.len() == 0 {
        return None;
    }
    if !all_ascii_digits(ip.as_slice()) || !all_ascii_digits(fp.as_slice()) {
        return None;
    }
    let mut all = crate::text::sub_vec(ip.as_slice(), 0, ip.len());
    assert(ip@.subrange(0, ip@.len() as int) =~= ip@);
    crate::text::push_all(&mut all, fp.as_slice());
    let ghost d = digits_value(all@);
    let ghost s: int = e + 3 - fp@.len();
    assert(all_digits(all@)) by {
        assert forall|i: int| 0 <= i < all@.len() implies is_digit(#[trigger] all@[i]) by {
            if i < ip@.len() {
                assert(all@[i] == ip@[i]);
            } else {
                assert(all@[i] == fp@[i - ip@.len()]);
            }
        }
    }
    assert(all@ == ip@ + fp@);
    assert(magnitude_ms(body@) == Some(scaled_value(d, s)));
    proof {
        lemma_digits_value_zero(all@);
    }
    if all_zero(all.as_slice()) {
        assert(d == 0);
        assert(scaled_value(d, s) == 0) by {
            if s < 0 {
                lemma_ten_pow_pos((-s) as nat);
                assert(0nat / ten_pow((-s) as nat) == 0);
            } else {
                assert(0nat * ten_pow(s as nat) == 0);
            }
        }
        return Some(Some(0));
    }
    let shift: Option<i128> = match exp {
        None => Some(3 - fp.len() as i128),
        Some((en, Some(k))) => Some(if en { -(k as i128) } else { k as i128 } + 3 - fp.len() as i128),
        Some((en, None)) => {
            if en {
                // far below a millisecond
                proof {
                    lemma_digits_value_below(all@);
                    lemma_ten_pow_mono(all@.len(), (-s) as nat);
                    assert(d / ten_pow((-s) as nat) == 0) by (nonlinear_arith)
                        requires d < ten_pow((-s) as nat);
                }
                return Some(Some(0));
            }
            None
        },
    };
    proof {
        if let Some(x) = shift {
            assert(fp@.len() <= usize::MAX);
            if let Some((en, Some(k))) = exp {
                assert(k <= 0x40_0000_0000_0000_0000);
            }
            assert(x > -0x1_0000_0000_0000_0000_0000);
        }
    }
    Some(shifted_ms(&all, shift, Ghost(s)))
}

/// Parses a number of seconds into milliseconds (see `seconds_text_ms`).
pub fn parse_seconds_ms(v: &[char]) -> (r: Option<i64>)
    ensures
        r == seconds_text_ms(v@),
{
    let neg = v.len() > 0 && v[0] == '-';
    let lo: usize = if v.len() > 0 && (v[0] == '+' || v[0] == '-') { 1 } else { 0 };
    let body = crate::text::sub_vec(v, lo, v.len());
    assert(body@ == (if v@.len() > 0 && (v@[0] == '+' || v@[0] == '-') { v@.drop_first() } else { v@ }));
    if word_ignoring_case(body.as_slice(), "inf") || word_ignoring_case(body.as_slice(), "infinity") {
        return Some(if neg { i64::MIN } else { i64::MAX });
    }
    match magnitude(body.as_slice()) {
        None => None,
        Some(m) => Some(signed_ms(neg, m)),
    }
}

} // verus!
