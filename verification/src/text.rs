//! Character-level text helpers with their specifications.
//!
//! Strings are handled through their character sequences (`Seq<char>`);
//! every helper states its result over those sequences.
use vstd::prelude::*;

verus! {

/// The characters of a string slice, in order.
pub fn chars_of(s: &str) -> (r: Vec<char>)
    ensures
        r@ == s@,
{
    let mut r: Vec<char> = Vec::new();
    for c in it: s.chars()
        invariant
            r@ == it.seq().take(it.index() as int),
            it.seq() == s@,
    {
        r.push(c);
    }
    r
}

/// Builds a `String` from characters (`FromIterator<char>` for `String`,
/// documented to append the characters in order).
#[verifier::external_body]
pub fn string_of(chars: &[char]) -> (r: String)
    ensures
        r@ == chars@,
{
    chars.iter().collect()
}

/// A copy of `v[lo..hi]`.
pub fn sub_vec(v: &[char], lo: usize, hi: usize) -> (r: Vec<char>)
    requires
        lo <= hi <= v@.len(),
    ensures
        r@ == v@.subrange(lo as int, hi as int),
{
    let mut r: Vec<char> = Vec::new();
    let mut i = lo;
    while i < hi
        invariant
            lo <= i <= hi <= v@.len(),
            r@ == v@.subrange(lo as int, i as int),
        decreases hi - i,
    {
        r.push(v[i]);
        i = i + 1;
    }
    r
}

/// Appends `src` to `dst`.
pub fn push_all(dst: &mut Vec<char>, src: &[char])
    ensures
        final(dst)@ == old(dst)@ + src@,
{
    let mut i: usize = 0;
    while i < src.len()
        invariant
            i <= src@.len(),
            dst@ == old(dst)@ + src@.take(i as int),
        decreases src@.len() - i,
    {
        dst.push(src[i]);
        i = i + 1;
        assert(src@.take(i as int) == src@.take(i - 1).push(src@[i - 1]));
    }
    assert(src@.take(i as int) == src@);
}

/// Appends the characters of `src` to `dst`.
pub fn push_str(dst: &mut Vec<char>, src: &str)
    ensures
        final(dst)@ == old(dst)@ + src@,
{
    let cs = chars_of(src);
    push_all(dst, cs.as_slice());
}

// ---------------------------------------------------------------------
// Whitespace and trimming
// ---------------------------------------------------------------------

/// Unicode `White_Space`, the set that `char::is_whitespace` tests.
pub open spec fn is_ws(c: char) -> bool {
    let u = c as u32;
    ||| 0x9 <= u <= 0xd
    ||| u == 0x20
    ||| u == 0x85
    ||| u == 0xa0
    ||| u == 0x1680
    ||| 0x2000 <= u <= 0x200a
    ||| u == 0x2028
    ||| u == 0x2029
    ||| u == 0x202f
    ||| u == 0x205f
    ||| u == 0x3000
}

/// Whether `c` is Unicode whitespace.
pub fn is_whitespace(c: char) -> (r: bool)
    ensures
        r == is_ws(c),
{
    let u = c as u32;
    (0x9 <= u && u <= 0xd) || u == 0x20 || u == 0x85 || u == 0xa0 || u == 0x1680 || (0x2000
        <= u && u <= 0x200a) || u == 0x2028 || u == 0x2029 || u == 0x202f || u == 0x205f || u
        == 0x3000
}

/// `s` without its leading whitespace.
pub open spec fn trim_start(s: Seq<char>) -> Seq<char>
    decreases s.len(),
{
    if s.len() > 0 && is_ws(s[0]) {
        trim_start(s.drop_first())
    } else {
        s
    }
}

/// `s` without its trailing whitespace.
pub open spec fn trim_end(s: Seq<char>) -> Seq<char>
    decreases s.len(),
{
    if s.len() > 0 && is_ws(s.last()) {
        trim_end(s.drop_last())
    } else {
        s
    }
}

/// `s` without leading and trailing whitespace (what `str::trim` returns).
pub open spec fn trim(s: Seq<char>) -> Seq<char> {
    trim_end(trim_start(s))
}

proof fn lemma_trim_start_skip(s: Seq<char>, i: int)
    requires
        0 <= i <= s.len(),
        forall|k: int| 0 <= k < i ==> is_ws(#[trigger] s[k]),
    ensures
        trim_start(s) == trim_start(s.skip(i)),
    decreases i,
{
    if i > 0 {
        assert(s.drop_first() == s.skip(1));
        lemma_trim_start_skip(s.drop_first(), i - 1);
        assert(s.drop_first().skip(i - 1) == s.skip(i));
    } else {
        assert(s.skip(0) == s);
    }
}

proof fn lemma_trim_end_take(s: Seq<char>, j: int)
    requires
        0 <= j <= s.len(),
        forall|k: int| j <= k < s.len() ==> is_ws(#[trigger] s[k]),
    ensures
        trim_end(s) == trim_end(s.take(j)),
    decreases s.len() - j,
{
    if j < s.len() {
        assert(s.drop_last() == s.take(s.len() - 1));
        lemma_trim_end_take(s.drop_last(), j);
        assert(s.drop_last().take(j) == s.take(j));
    } else {
        assert(s.take(j) == s);
    }
}

/// Trimming the end of `a + p` trims `p`, and reaches into `a` only when `p`
/// is all whitespace.
pub proof fn lemma_trim_end_append(a: Seq<char>, p: Seq<char>)
    ensures
        trim_end(a + p) == (if trim_end(p).len() > 0 { a + trim_end(p) } else { trim_end(a) }),
    decreases p.len(),
{
    if p.len() == 0 {
        assert(a + p == a);
    } else {
        assert((a + p).last() == p.last());
        if is_ws(p.last()) {
            assert((a + p).drop_last() == a + p.drop_last());
            lemma_trim_end_append(a, p.drop_last());
        }
    }
}

/// `trim_end` leaves no whitespace at the end.
pub proof fn lemma_trim_end_clean(s: Seq<char>)
    ensures
        trim_end(s).len() == 0 || !is_ws(trim_end(s).last()),
        trim_end(trim_end(s)) == trim_end(s),
    decreases s.len(),
{
    if s.len() > 0 && is_ws(s.last()) {
        lemma_trim_end_clean(s.drop_last());
    }
}

/// Trimming the start and trimming the end can be done in either order.
pub proof fn lemma_trim_commute(s: Seq<char>)
    ensures
        trim_start(trim_end(s)) == trim_end(trim_start(s)),
    decreases s.len(),
{
    if s.len() > 0 {
        let c = s[0];
        let y = s.drop_first();
        assert(s == seq![c] + y);
        lemma_trim_end_append(seq![c], y);
        if is_ws(c) {
            lemma_trim_commute(y);
            assert(trim_end(seq![c]) == trim_end(seq![c].drop_last()));
            assert(seq![c].drop_last().len() == 0);
            if trim_end(y).len() > 0 {
                assert((seq![c] + trim_end(y)).drop_first() == trim_end(y));
                assert((seq![c] + trim_end(y))[0] == c);
            }
        } else {
            assert(trim_end(seq![c]) == seq![c]);
            if trim_end(y).len() > 0 {
                assert((seq![c] + trim_end(y))[0] == c);
            }
        }
    }
}

/// `trim` of `s` with its end already trimmed is `trim(s)`.
pub proof fn lemma_trim_of_trim_end(s: Seq<char>)
    ensures
        trim(trim_end(s)) == trim(s),
{
    lemma_trim_commute(s);
    lemma_trim_end_clean(trim_start(s));
}

/// A leading whitespace character makes no difference to `trim`.
pub proof fn lemma_trim_ws_front(c: char, s: Seq<char>)
    requires
        is_ws(c),
    ensures
        trim(seq![c] + s) == trim(s),
{
    assert((seq![c] + s)[0] == c);
    assert((seq![c] + s).drop_first() == s);
}

/// Index of the first non-whitespace character of `v[lo..hi]` (or `hi`).
fn skip_ws_forward(v: &[char], lo: usize, hi: usize) -> (r: usize)
    requires
        lo <= hi <= v@.len(),
    ensures
        lo <= r <= hi,
        forall|k: int| lo <= k < r ==> is_ws(#[trigger] v@[k]),
        r < hi ==> !is_ws(v@[r as int]),
{
    let mut i = lo;
    while i < hi && is_whitespace(v[i])
        invariant
            lo <= i <= hi <= v@.len(),
            forall|k: int| lo <= k < i ==> is_ws(#[trigger] v@[k]),
        decreases hi - i,
    {
        i = i + 1;
    }
    i
}

/// One past the last non-whitespace character of `v[lo..hi]` (or `lo`).
fn skip_ws_backward(v: &[char], lo: usize, hi: usize) -> (r: usize)
    requires
        lo <= hi <= v@.len(),
    ensures
        lo <= r <= hi,
        forall|k: int| r <= k < hi ==> is_ws(#[trigger] v@[k]),
        r > lo ==> !is_ws(v@[r - 1]),
{
    let mut j = hi;
    while j > lo && is_whitespace(v[j - 1])
        invariant
            lo <= j <= hi <= v@.len(),
            forall|k: int| j <= k < hi ==> is_ws(#[trigger] v@[k]),
        decreases j - lo,
    {
        j = j - 1;
    }
    j
}

/// Bounds `(a, b)` such that `v[a..b]` is `trim(v)`.
pub fn trim_bounds(v: &[char]) -> (r: (usize, usize))
    ensures
        r.0 <= r.1 <= v@.len(),
        v@.subrange(r.0 as int, r.1 as int) == trim(v@),
        trim_start(v@) == v@.skip(r.0 as int),
{
    let a = skip_ws_forward(v, 0, v.len());
    let b = skip_ws_backward(v, a, v.len());
    proof {
        lemma_trim_start_skip(v@, a as int);
        let t = v@.skip(a as int);
        if a < v@.len() {
            assert(t[0] == v@[a as int]);
        } else {
            assert(t.len() == 0);
        }
        assert(trim_start(t) == t);
        assert forall|k: int| (b - a) <= k < t.len() implies is_ws(#[trigger] t[k]) by {
            assert(t[k] == v@[a + k]);
        }
        lemma_trim_end_take(t, b - a);
        let u = t.take(b - a);
        if b > a {
            assert(u.last() == v@[b - 1]);
        }
        assert(trim_end(u) == u);
        assert(u == v@.subrange(a as int, b as int));
    }
    (a, b)
}

/// `trim(v)` as a new vector.
pub fn trim_vec(v: &[char]) -> (r: Vec<char>)
    ensures
        r@ == trim(v@),
{
    let (a, b) = trim_bounds(v);
    sub_vec(v, a, b)
}

// ---------------------------------------------------------------------
// Searching
// ---------------------------------------------------------------------

/// `needle` occurs in `hay` at position `i`.
pub open spec fn occurs_at(hay: Seq<char>, needle: Seq<char>, i: int) -> bool {
    0 <= i && i + needle.len() <= hay.len() && hay.subrange(i, i + needle.len()) == needle
}

/// The position of the first occurrence of `needle` in `hay`, if any
/// (what `str::find` gives, counted in characters).
#[verifier::opaque]
pub open spec fn find_first(hay: Seq<char>, needle: Seq<char>) -> Option<int> {
    if exists|i: int| occurs_at(hay, needle, i) {
        Some(choose|i: int| occurs_at(hay, needle, i) && forall|j: int| 0 <= j < i ==> !occurs_at(hay, needle, j))
    } else {
        None
    }
}

/// Whether `needle` occurs in `v` at `i`.
pub fn matches_at(v: &[char], needle: &[char], i: usize) -> (r: bool)
    ensures
        r == occurs_at(v@, needle@, i as int),
{
    if i > v.len() || needle.len() > v.len() - i {
        return false;
    }
    let mut k: usize = 0;
    while k < needle.len()
        invariant
            i + needle@.len() <= v@.len(),
            v@.len() == v.len(),
            k <= needle@.len(),
            forall|m: int| 0 <= m < k ==> v@[i + m] == needle@[m],
        decreases needle@.len() - k,
    {
        if v[i + k] != needle[k] {
            assert(v@.subrange(i as int, i + needle@.len())[k as int] != needle@[k as int]);
            return false;
        }
        k = k + 1;
    }
    assert(v@.subrange(i as int, i + needle@.len()) == needle@);
    true
}

/// The first position at or after `from` where `needle` occurs in `v`.
pub fn find_from(v: &[char], needle: &[char], from: usize) -> (r: Option<usize>)
    ensures
        match r {
            Some(i) => from <= i && occurs_at(v@, needle@, i as int) && forall|j: int|
                from <= j < i ==> !occurs_at(v@, needle@, j),
            None => forall|j: int| from <= j ==> !occurs_at(v@, needle@, j),
        },
{
    if needle.len() > v.len() {
        return None;
    }
    let last = v.len() - needle.len();
    let mut i = from;
    while i <= last
        invariant
            last == v@.len() - needle@.len(),
            from <= i,
            forall|j: int| from <= j < i ==> !occurs_at(v@, needle@, j),
        decreases last + 1 - i,
    {
        if matches_at(v, needle, i) {
            return Some(i);
        }
        if i == last {
            return None;
        }
        i = i + 1;
    }
    None
}

/// The first occurrence of `needle` in `v`.
pub fn find(v: &[char], needle: &[char]) -> (r: Option<usize>)
    ensures
        match r {
            Some(i) => find_first(v@, needle@) == Some(i as int) && occurs_at(v@, needle@, i as int)
                && forall|j: int| 0 <= j < i ==> !occurs_at(v@, needle@, j),
            None => find_first(v@, needle@) is None && forall|j: int| !occurs_at(v@, needle@, j),
        },
{
    let r = find_from(v, needle, 0);
    proof {
        reveal(find_first);
        if let Some(i) = r {
            let c = choose|k: int| occurs_at(v@, needle@, k) && forall|j: int| 0 <= j < k ==> !occurs_at(v@, needle@, j);
            assert(occurs_at(v@, needle@, c) && forall|j: int| 0 <= j < c ==> !occurs_at(v@, needle@, j));
        }
    }
    r
}

/// Whether `v` starts with `prefix`.
pub fn starts_with(v: &[char], prefix: &[char]) -> (r: bool)
    ensures
        r == occurs_at(v@, prefix@, 0),
{
    matches_at(v, prefix, 0)
}

/// Whether two strings are equal.
pub fn same_text(a: &str, b: &str) -> (r: bool)
    ensures
        r == (a@ == b@),
{
    let x = chars_of(a);
    let y = chars_of(b);
    let r = x.len() == y.len() && starts_with(x.as_slice(), y.as_slice());
    proof {
        assert(x@.len() == y@.len() ==> x@.subrange(0, y@.len() as int) == x@);
    }
    r
}

/// Whether `v` ends with `suffix`.
pub fn ends_with(v: &[char], suffix: &[char]) -> (r: bool)
    ensures
        r == (suffix@.len() <= v@.len() && occurs_at(v@, suffix@, v@.len() - suffix@.len())),
{
    if suffix.len() > v.len() {
        return false;
    }
    matches_at(v, suffix, v.len() - suffix.len())
}

/// Whether `needle` occurs anywhere in `v`.
pub fn contains(v: &[char], needle: &[char]) -> (r: bool)
    ensures
        r == exists|i: int| occurs_at(v@, needle@, i),
{
    find_from(v, needle, 0).is_some()
}

/// The index of the last `c` in `s`, if any.
pub open spec fn last_index(s: Seq<char>, c: char) -> Option<int> {
    if exists|i: int| 0 <= i < s.len() && s[i] == c {
        Some(choose|i: int| 0 <= i < s.len() && s[i] == c && forall|j: int| i < j < s.len() ==> s[j] != c)
    } else {
        None
    }
}

/// The index of the last `c` in `v` (what `str::rfind` gives, in characters).
pub fn rfind_char(v: &[char], c: char) -> (r: Option<usize>)
    ensures
        match r {
            Some(i) => last_index(v@, c) == Some(i as int) && i < v@.len() && v@[i as int] == c
                && forall|j: int| i < j < v@.len() ==> v@[j] != c,
            None => last_index(v@, c) is None && forall|j: int| 0 <= j < v@.len() ==> v@[j] != c,
        },
{
    let mut j = v.len();
    while j > 0
        invariant
            j <= v@.len(),
            forall|k: int| j <= k < v@.len() ==> v@[k] != c,
        decreases j,
    {
        if v[j - 1] == c {
            let i = j - 1;
            proof {
                let w = choose|k: int| 0 <= k < v@.len() && v@[k] == c && forall|m: int| k < m < v@.len() ==> v@[m] != c;
                assert(0 <= w < v@.len() && v@[w] == c && forall|m: int| w < m < v@.len() ==> v@[m] != c);
                if w < i {
                    assert(v@[i as int] == c);
                }
            }
            return Some(i);
        }
        j = j - 1;
    }
    None
}

// ---------------------------------------------------------------------
// Lines
// ---------------------------------------------------------------------

/// `s` without one trailing carriage return.
pub open spec fn strip_cr(s: Seq<char>) -> Seq<char> {
    if s.len() > 0 && s.last() == '\r' {
        s.drop_last()
    } else {
        s
    }
}

/// The lines of `s`, where `cur` holds the characters of the line being read:
/// a line ends at `\n` (and then loses one `\r` before it); the text after the
/// last `\n` is a line only if it is not empty.
pub open spec fn lines_from(s: Seq<char>, cur: Seq<char>) -> Seq<Seq<char>>
    decreases s.len(),
{
    if s.len() == 0 {
        if cur.len() == 0 {
            seq![]
        } else {
            seq![cur]
        }
    } else if s[0] == '\n' {
        seq![strip_cr(cur)] + lines_from(s.drop_first(), seq![])
    } else {
        lines_from(s.drop_first(), cur.push(s[0]))
    }
}

/// The lines of `s`, as `str::lines` yields them.
pub open spec fn lines(s: Seq<char>) -> Seq<Seq<char>> {
    lines_from(s, seq![])
}

/// The views of a vector of character vectors.
pub open spec fn views(v: Seq<Vec<char>>) -> Seq<Seq<char>> {
    v.map_values(|l: Vec<char>| l@)
}

/// Splits `v` into its lines.
pub fn split_lines(v: &[char]) -> (r: Vec<Vec<char>>)
    ensures
        views(r@) == lines(v@),
{
    let mut out: Vec<Vec<char>> = Vec::new();
    let mut cur: Vec<char> = Vec::new();
    let mut i: usize = 0;
    assert(v@.skip(0) == v@);
    assert(views(out@) == Seq::<Seq<char>>::empty());
    assert(cur@ == Seq::<char>::empty());
    assert(Seq::<Seq<char>>::empty() + lines(v@) == lines(v@));
    while i < v.len()
        invariant
            i <= v@.len(),
            lines(v@) == views(out@) + lines_from(v@.skip(i as int), cur@),
        decreases v@.len() - i,
    {
        let ghost rest = v@.skip(i as int);
        assert(rest.drop_first() == v@.skip(i + 1));
        if v[i] == '\n' {
            let ghost old_out = out@;
            let ghost old_cur = cur@;
            let mut line = cur;
            if line.len() > 0 && line[line.len() - 1] == '\r' {
                line.pop();
            }
            assert(line@ == strip_cr(old_cur));
            out.push(line);
            cur = Vec::new();
            assert(views(out@) == views(old_out).push(strip_cr(old_cur)));
            assert(lines_from(rest, old_cur) == seq![strip_cr(old_cur)] + lines_from(
                rest.drop_first(),
                seq![],
            ));
            assert(views(old_out).push(strip_cr(old_cur)) + lines_from(rest.drop_first(), seq![])
                == views(old_out) + (seq![strip_cr(old_cur)] + lines_from(rest.drop_first(), seq![])));
        } else {
            let ghost old_cur = cur@;
            cur.push(v[i]);
            assert(lines_from(rest, old_cur) == lines_from(rest.drop_first(), old_cur.push(v@[i as int])));
        }
        i = i + 1;
    }
    assert(v@.skip(i as int) == Seq::<char>::empty());
    if cur.len() > 0 {
        let ghost old_out = out@;
        let ghost c = cur@;
        out.push(cur);
        assert(views(out@) == views(old_out).push(c));
    } else {
        assert(views(out@) + seq![] == views(out@));
    }
    out
}


// ---------------------------------------------------------------------
// Decimal digits
// ---------------------------------------------------------------------

/// The ASCII digit for `d` (`d < 10`).
pub open spec fn digit_char(d: int) -> char {
    (48 + d) as char
}

/// Whether `c` is an ASCII digit.
pub open spec fn is_digit(c: char) -> bool {
    '0' <= c <= '9'
}

/// The value of the ASCII digit `c`.
pub open spec fn digit_value(c: char) -> int {
    c as int - 48
}

/// The decimal representation of `n`, without leading zeros (as `Display` writes it).
pub open spec fn decimal(n: nat) -> Seq<char>
    decreases n,
{
    if n < 10 {
        seq![digit_char(n as int)]
    } else {
        decimal(n / 10).push(digit_char((n % 10) as int))
    }
}

/// `decimal(n)` padded on the left with zeros to at least `width` characters
/// (as the `{:0width}` format writes it).
pub open spec fn zero_padded(n: nat, width: nat) -> Seq<char> {
    let d = decimal(n);
    if d.len() < width {
        Seq::new((width - d.len()) as nat, |i: int| '0') + d
    } else {
        d
    }
}

/// Every character of `decimal(n)` is a digit, and it has at least one.
pub proof fn lemma_decimal_digits(n: nat)
    ensures
        decimal(n).len() >= 1,
        forall|i: int| 0 <= i < decimal(n).len() ==> is_digit(#[trigger] decimal(n)[i]),
        n >= 10 ==> decimal(n).len() >= 2,
    decreases n,
{
    if n >= 10 {
        lemma_decimal_digits(n / 10);
    }
}

proof fn lemma_digit_char_injective(x: int, y: int)
    requires
        0 <= x < 10,
        0 <= y < 10,
        digit_char(x) == digit_char(y),
    ensures
        x == y,
{
    assert(digit_char(x) as int == 48 + x);
    assert(digit_char(y) as int == 48 + y);
}

/// Different numbers have different decimal representations.
pub proof fn lemma_decimal_injective(a: nat, b: nat)
    requires
        decimal(a) == decimal(b),
    ensures
        a == b,
    decreases a,
{
    lemma_decimal_digits(a);
    lemma_decimal_digits(b);
    if a < 10 && b < 10 {
        assert(decimal(a) == seq![digit_char(a as int)]);
        assert(decimal(b) == seq![digit_char(b as int)]);
        assert(decimal(a)[0] == decimal(b)[0]);
        assert(seq![digit_char(a as int)][0] == digit_char(a as int));
        assert(seq![digit_char(b as int)][0] == digit_char(b as int));
        lemma_digit_char_injective(a as int, b as int);
    } else if a >= 10 && b >= 10 {
        let da = decimal(a);
        let db = decimal(b);
        assert(da.last() == db.last());
        assert(da.drop_last() == decimal(a / 10));
        assert(db.drop_last() == decimal(b / 10));
        lemma_decimal_injective(a / 10, b / 10);
        lemma_digit_char_injective((a % 10) as int, (b % 10) as int);
    } else {
        assert(decimal(a).len() != decimal(b).len());
    }
}

/// The character for digit `d`.
pub fn digit_to_char(d: u8) -> (c: char)
    requires
        d < 10,
    ensures
        c == digit_char(d as int),
        is_digit(c),
{
    let c = (48u8 + d) as char;
    c
}

/// Appends `decimal(n)` to `out`.
pub fn push_decimal(out: &mut Vec<char>, n: u128)
    ensures
        final(out)@ == old(out)@ + decimal(n as nat),
    decreases n,
{
    if n >= 10 {
        push_decimal(out, n / 10);
    }
    let d = (n % 10) as u8;
    out.push(digit_to_char(d));
    proof {
        if n >= 10 {
            assert(decimal(n as nat) == decimal((n / 10) as nat).push(digit_char((n % 10) as int)));
        }
    }
}

/// Appends `zero_padded(n, width)` to `out`.
pub fn push_zero_padded(out: &mut Vec<char>, n: u128, width: usize)
    ensures
        final(out)@ == old(out)@ + zero_padded(n as nat, width as nat),
{
    let mut digits: Vec<char> = Vec::new();
    push_decimal(&mut digits, n);
    assert(digits@ == decimal(n as nat));
    if digits.len() < width {
        let pad = width - digits.len();
        let ghost start = out@;
        let mut k: usize = 0;
        while k < pad
            invariant
                k <= pad,
                out@ == start + Seq::new(k as nat, |i: int| '0'),
            decreases pad - k,
        {
            out.push('0');
            k = k + 1;
            assert(Seq::new(k as nat, |i: int| '0') == Seq::new((k - 1) as nat, |i: int| '0').push('0'));
        }
        push_all(out, digits.as_slice());
        assert(start + Seq::new(pad as nat, |i: int| '0') + decimal(n as nat) == start + (Seq::new(pad as nat, |i: int| '0') + decimal(n as nat)));
    } else {
        push_all(out, digits.as_slice());
    }
}


// ---------------------------------------------------------------------
// Repeated prefixes and suffixes
// ---------------------------------------------------------------------

/// `s` with every leading copy of `p` removed (as `str::trim_start_matches`).
pub open spec fn strip_prefixes(s: Seq<char>, p: Seq<char>) -> Seq<char>
    decreases s.len(),
{
    if p.len() > 0 && occurs_at(s, p, 0) {
        strip_prefixes(s.skip(p.len() as int), p)
    } else {
        s
    }
}

/// `s` with every trailing copy of `p` removed (as `str::trim_end_matches`).
pub open spec fn strip_suffixes(s: Seq<char>, p: Seq<char>) -> Seq<char>
    decreases s.len(),
{
    if p.len() > 0 && p.len() <= s.len() && occurs_at(s, p, s.len() - p.len()) {
        strip_suffixes(s.take(s.len() - p.len()), p)
    } else {
        s
    }
}

/// `strip_prefixes(v, p)` as a new vector.
pub fn strip_prefixes_vec(v: &[char], p: &[char]) -> (r: Vec<char>)
    ensures
        r@ == strip_prefixes(v@, p@),
{
    let mut cur = sub_vec(v, 0, v.len());
    assert(v@.subrange(0, v@.len() as int) == v@);
    if p.len() == 0 {
        return cur;
    }
    while starts_with(cur.as_slice(), p)
        invariant
            p@.len() > 0,
            strip_prefixes(v@, p@) == strip_prefixes(cur@, p@),
        decreases cur@.len(),
    {
        let next = sub_vec(cur.as_slice(), p.len(), cur.len());
        assert(cur@.subrange(p@.len() as int, cur@.len() as int) == cur@.skip(p@.len() as int));
        cur = next;
    }
    cur
}

/// `strip_suffixes(v, p)` as a new vector.
pub fn strip_suffixes_vec(v: &[char], p: &[char]) -> (r: Vec<char>)
    ensures
        r@ == strip_suffixes(v@, p@),
{
    let mut cur = sub_vec(v, 0, v.len());
    assert(v@.subrange(0, v@.len() as int) == v@);
    if p.len() == 0 {
        return cur;
    }
    while ends_with(cur.as_slice(), p)
        invariant
            p@.len() > 0,
            strip_suffixes(v@, p@) == strip_suffixes(cur@, p@),
        decreases cur@.len(),
    {
        let next = sub_vec(cur.as_slice(), 0, cur.len() - p.len());
        assert(cur@.subrange(0, cur@.len() - p@.len()) == cur@.take(cur@.len() - p@.len()));
        cur = next;
    }
    cur
}


// ---------------------------------------------------------------------
// Splitting at a character
// ---------------------------------------------------------------------

/// The pieces of `s` between occurrences of `c`, where `cur` holds the piece
/// being read (empty pieces included, as `str::split` gives them).
pub open spec fn split_from(s: Seq<char>, c: char, cur: Seq<char>) -> Seq<Seq<char>>
    decreases s.len(),
{
    if s.len() == 0 {
        seq![cur]
    } else if s[0] == c {
        seq![cur] + split_from(s.drop_first(), c, seq![])
    } else {
        split_from(s.drop_first(), c, cur.push(s[0]))
    }
}

/// The pieces of `s` between occurrences of `c` (what `str::split` yields).
pub open spec fn split_on(s: Seq<char>, c: char) -> Seq<Seq<char>> {
    split_from(s, c, seq![])
}

/// Splits `v` at every `c`.
pub fn split_char(v: &[char], c: char) -> (r: Vec<Vec<char>>)
    ensures
        views(r@) == split_on(v@, c),
{
    let mut out: Vec<Vec<char>> = Vec::new();
    let mut cur: Vec<char> = Vec::new();
    let mut i: usize = 0;
    assert(v@.skip(0) == v@);
    assert(Seq::<Seq<char>>::empty() + split_on(v@, c) == split_on(v@, c));
    while i < v.len()
        invariant
            i <= v@.len(),
            split_on(v@, c) == views(out@) + split_from(v@.skip(i as int), c, cur@),
        decreases v@.len() - i,
    {
        let ghost rest = v@.skip(i as int);
        assert(rest.drop_first() == v@.skip(i + 1));
        if v[i] == c {
            let ghost old_out = out@;
            let ghost old_cur = cur@;
            out.push(cur);
            cur = Vec::new();
            assert(views(out@) == views(old_out).push(old_cur));
            assert(views(old_out).push(old_cur) + split_from(rest.drop_first(), c, seq![])
                == views(old_out) + (seq![old_cur] + split_from(rest.drop_first(), c, seq![])));
        } else {
            cur.push(v[i]);
        }
        i = i + 1;
    }
    assert(v@.skip(i as int) == Seq::<char>::empty());
    let ghost old_out = out@;
    let ghost old_cur = cur@;
    out.push(cur);
    assert(views(out@) == views(old_out).push(old_cur));
    out
}

/// The leading ASCII digits of `s`.
pub open spec fn leading_digits(s: Seq<char>) -> Seq<char>
    decreases s.len(),
{
    if s.len() > 0 && is_digit(s[0]) {
        seq![s[0]] + leading_digits(s.drop_first())
    } else {
        seq![]
    }
}

/// The leading ASCII digits of `v[lo..]`.
pub fn leading_digits_from(v: &[char], lo: usize) -> (r: Vec<char>)
    requires
        lo <= v@.len(),
    ensures
        r@ == leading_digits(v@.skip(lo as int)),
{
    let mut i = lo;
    while i < v.len() && '0' <= v[i] && v[i] <= '9'
        invariant
            lo <= i <= v@.len(),
            forall|k: int| lo <= k < i ==> is_digit(#[trigger] v@[k]),
        decreases v@.len() - i,
    {
        i = i + 1;
    }
    let r = sub_vec(v, lo, i);
    proof {
        lemma_leading_digits(v@.skip(lo as int), i - lo);
        assert(v@.skip(lo as int).take(i - lo) == v@.subrange(lo as int, i as int));
    }
    r
}

proof fn lemma_leading_digits(s: Seq<char>, k: int)
    requires
        0 <= k <= s.len(),
        forall|j: int| 0 <= j < k ==> is_digit(#[trigger] s[j]),
        k == s.len() || !is_digit(s[k]),
    ensures
        leading_digits(s) == s.take(k),
    decreases k,
{
    if k > 0 {
        lemma_leading_digits(s.drop_first(), k - 1);
        assert(s.take(k) == seq![s[0]] + s.drop_first().take(k - 1));
    } else {
        assert(s.take(0) == Seq::<char>::empty());
    }
}

} // verus!
