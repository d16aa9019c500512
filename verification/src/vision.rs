//! Reading the model's reply: cut proposals as JSON, a fallback reading of
//! free text, and the length filter applied to proposals.
use vstd::prelude::*;
use crate::text::{chars_of, string_of, sub_vec, trim, trim_start, trim_end, trim_vec, strip_suffixes, strip_suffixes_vec, strip_prefixes, strip_prefixes_vec, lines, split_lines, views, contains, occurs_at, starts_with, find, find_first, rfind_char, last_index, push_str, push_all};
use crate::json::{records, json_records};
use crate::seconds::{fixed, shortest, push_fixed, push_shortest};
use crate::config::{CutRequirement, FieldView, field_views};
use crate::text::{decimal, push_decimal};
use crate::number::{seconds_text_ms, parse_seconds_ms};
use crate::json::{JsonScalar, ScalarView, JsonRecord, RecordView};
use crate::order::{is_stable_order, stable_order};
use crate::pattern::{capture, regex_capture};

verus! {

/// A proposed cut of a source video, in milliseconds from its start.
#[derive(Debug)]
pub struct CutShot {
    pub start: i64,
    pub end: i64,
    pub reason: Option<String>,
}

/// What a `CutShot` holds.
pub struct ShotView {
    pub start: i64,
    pub end: i64,
    pub reason: Option<Seq<char>>,
}

/// The characters of an optional string.
pub open spec fn opt_view(s: Option<String>) -> Option<Seq<char>> {
    match s {
        Some(x) => Some(x@),
        None => None,
    }
}

impl View for CutShot {
    type V = ShotView;

    open spec fn view(&self) -> ShotView {
        ShotView { start: self.start, end: self.end, reason: opt_view(self.reason) }
    }
}

/// The views of a list of shots.
pub open spec fn shot_views(v: Seq<CutShot>) -> Seq<ShotView> {
    v.map_values(|s: CutShot| s@)
}

/// A copy of an optional string.
pub fn copy_opt(s: &Option<String>) -> (r: Option<String>)
    ensures
        opt_view(r) == opt_view(*s),
{
    match s {
        Some(x) => Some(x.clone()),
        None => None,
    }
}

impl CutShot {
    /// A copy of the shot.
    pub fn duplicate(&self) -> (r: CutShot)
        ensures
            r@ == self@,
    {
        CutShot { start: self.start, end: self.end, reason: copy_opt(&self.reason) }
    }
}

/// The start times of a list of shots.
pub open spec fn starts(v: Seq<ShotView>) -> Seq<i64> {
    v.map_values(|s: ShotView| s.start)
}

/// `r` is `v` sorted by start time, shots with equal starts keeping their order.
pub open spec fn stably_sorted_by_start(v: Seq<ShotView>, r: Seq<ShotView>) -> bool {
    exists|p: Seq<usize>| is_stable_order(starts(v), p) && r == p.map_values(|k: usize| v[k as int])
}

/// A stable sort by start leaves the starts in ascending order.
pub proof fn lemma_sorted_starts_ascend(v: Seq<ShotView>, r: Seq<ShotView>)
    requires
        stably_sorted_by_start(v, r),
    ensures
        forall|i: int, j: int| 0 <= i < j < r.len() ==> (#[trigger] r[i]).start <= (#[trigger] r[j]).start,
{
    let p = choose|p: Seq<usize>| is_stable_order(starts(v), p) && r == p.map_values(|k: usize| v[k as int]);
    assert forall|i: int, j: int| 0 <= i < j < r.len() implies (#[trigger] r[i]).start <= (#[trigger] r[j]).start by {
        assert(starts(v)[p[i] as int] == v[p[i] as int].start);
        assert(starts(v)[p[j] as int] == v[p[j] as int].start);
    }
}

/// Sorts shots by start time, stably (what `sort_by` on the start gives).
pub fn sort_shots_by_start(v: Vec<CutShot>) -> (r: Vec<CutShot>)
    ensures
        stably_sorted_by_start(shot_views(v@), shot_views(r@)),
        r@.len() == v@.len(),
        forall|i: int, j: int| 0 <= i < j < r@.len() ==> (#[trigger] r@[i]).start <= (#[trigger] r@[j]).start,
{
    let mut keys: Vec<i64> = Vec::new();
    let mut i: usize = 0;
    while i < v.len()
        invariant
            i <= v@.len(),
            keys@ == starts(shot_views(v@)).take(i as int),
        decreases v@.len() - i,
    {
        keys.push(v[i].start);
        i = i + 1;
        assert(keys@ == starts(shot_views(v@)).take(i as int));
    }
    assert(keys@ == starts(shot_views(v@)));
    let p = stable_order(&keys);
    let mut r: Vec<CutShot> = Vec::new();
    let mut k: usize = 0;
    let ghost target = p@.map_values(|j: usize| shot_views(v@)[j as int]);
    while k < p.len()
        invariant
            k <= p@.len(),
            is_stable_order(keys@, p@),
            keys@.len() == v@.len(),
            target == p@.map_values(|j: usize| shot_views(v@)[j as int]),
            shot_views(r@) == target.take(k as int),
        decreases p@.len() - k,
    {
        let j = p[k];
        assert(p@[k as int] < keys@.len());
        let ghost before = r@;
        let d = v[j].duplicate();
        r.push(d);
        assert(target[k as int] == shot_views(v@)[j as int]);
        assert(shot_views(v@)[j as int] == v@[j as int]@);
        assert(shot_views(r@) == shot_views(before).push(d@));
        assert(target.take(k + 1) == target.take(k as int).push(target[k as int]));
        k = k + 1;
    }
    assert(shot_views(r@) == target);
    proof {
        lemma_sorted_starts_ascend(shot_views(v@), shot_views(r@));
        assert forall|i: int, j: int| 0 <= i < j < r@.len() implies (#[trigger] r@[i]).start <= (#[trigger] r@[j]).start by {
            assert(shot_views(r@)[i] == r@[i]@);
            assert(shot_views(r@)[j] == r@[j]@);
        }
    }
    r
}

// ---------------------------------------------------------------------
// Times in replies
// ---------------------------------------------------------------------

/// The time, in ms, that a JSON value gives for a cut point: a number is read
/// as seconds, a string as seconds once trailing `s` characters and
/// surrounding whitespace are dropped; anything unreadable gives 0.
pub open spec fn scalar_ms(x: ScalarView) -> i64 {
    match x {
        ScalarView::Number(t) => match seconds_text_ms(t) {
            Some(v) => v,
            None => 0,
        },
        ScalarView::Text(t) => match seconds_text_ms(trim(strip_suffixes(t, seq!['s']))) {
            Some(v) => v,
            None => 0,
        },
        ScalarView::Other => 0,
    }
}

/// The time a JSON value gives for a cut point (see `scalar_ms`).
pub fn timestamp_ms(x: &JsonScalar) -> (r: i64)
    ensures
        r == scalar_ms(x@),
{
    match x {
        JsonScalar::Number(t) => {
            let v = chars_of(t.as_str());
            match parse_seconds_ms(v.as_slice()) {
                Some(ms) => ms,
                None => 0,
            }
        },
        JsonScalar::Text(t) => {
            let v = chars_of(t.as_str());
            let s = ['s'];
            assert(s@ == seq!['s']);
            let stripped = strip_suffixes_vec(v.as_slice(), &s);
            let body = trim_vec(stripped.as_slice());
            match parse_seconds_ms(body.as_slice()) {
                Some(ms) => ms,
                None => 0,
            }
        },
        JsonScalar::Other => 0,
    }
}

/// The shots that JSON records give: each record read as (start, end,
/// reason), records whose end is not after their start skipped.
pub open spec fn shots_of_records(rs: Seq<RecordView>) -> Seq<ShotView>
    decreases rs.len(),
{
    if rs.len() == 0 {
        seq![]
    } else {
        let prev = shots_of_records(rs.drop_last());
        let x = rs.last();
        let a = scalar_ms(x.first);
        let b = scalar_ms(x.second);
        if b <= a {
            prev
        } else {
            prev.push(ShotView { start: a, end: b, reason: x.note })
        }
    }
}

/// The shots that JSON records give (see `shots_of_records`).
pub fn shots_from_records(rs: &Vec<JsonRecord>) -> (r: Vec<CutShot>)
    ensures
        shot_views(r@) == shots_of_records(rs@.map_values(|x: JsonRecord| x@)),
{
    let ghost all = rs@.map_values(|x: JsonRecord| x@);
    let mut out: Vec<CutShot> = Vec::new();
    let mut i: usize = 0;
    while i < rs.len()
        invariant
            i <= rs@.len(),
            all == rs@.map_values(|x: JsonRecord| x@),
            shot_views(out@) == shots_of_records(all.take(i as int)),
        decreases rs@.len() - i,
    {
        let x = &rs[i];
        let a = timestamp_ms(&x.first);
        let b = timestamp_ms(&x.second);
        assert(all.take(i + 1).drop_last() == all.take(i as int));
        assert(all.take(i + 1).last() == x@);
        if b > a {
            let s = CutShot { start: a, end: b, reason: copy_opt(&x.note) };
            let ghost before = out@;
            out.push(s);
            assert(shot_views(out@) == shot_views(before).push(s@));
        }
        i = i + 1;
    }
    assert(all.take(rs@.len() as int) == all);
    out
}

// ---------------------------------------------------------------------
// Length filter
// ---------------------------------------------------------------------

/// A shot of this length is kept for a target of `target` ms and a
/// tolerance of `tolerance` ms: at least the target (and at least 2 s), at
/// most target plus tolerance.
pub open spec fn length_ok(s: ShotView, target: int, tolerance: int) -> bool {
    let d = s.end - s.start;
    let min = if target > 2000 { target } else { 2000 };
    min <= d <= target + tolerance
}

/// The shots that the length filter keeps, in order.
pub open spec fn kept_by_length(shots: Seq<ShotView>, target: int, tolerance: int) -> Seq<ShotView> {
    shots.filter(|s: ShotView| length_ok(s, target, tolerance))
}

/// The length filter keeps exactly the shots that last at least the target
/// and at least 2 s, and at most the target plus the tolerance: never
/// shorter than the target.
pub proof fn lemma_length_filter_bounds(shots: Seq<ShotView>, target: int, tolerance: int)
    ensures
        forall|i: int| 0 <= i < kept_by_length(shots, target, tolerance).len() ==> {
            let k = #[trigger] kept_by_length(shots, target, tolerance)[i];
            &&& k.end - k.start >= target
            &&& k.end - k.start >= 2000
            &&& k.end - k.start <= target + tolerance
        },
        forall|i: int| 0 <= i < shots.len() && ({
            let d = (#[trigger] shots[i]).end - shots[i].start;
            d >= target && d >= 2000 && d <= target + tolerance
        }) ==> kept_by_length(shots, target, tolerance).contains(shots[i]),
{
    let pred = |s: ShotView| length_ok(s, target, tolerance);
    let f = shots.filter(pred);
    assert forall|i: int| 0 <= i < f.len() implies {
        let k = #[trigger] f[i];
        &&& k.end - k.start >= target
        &&& k.end - k.start >= 2000
        &&& k.end - k.start <= target + tolerance
    } by {
        shots.lemma_filter_pred(pred, i);
    }
    assert forall|i: int| 0 <= i < shots.len() && ({
        let d = (#[trigger] shots[i]).end - shots[i].start;
        d >= target && d >= 2000 && d <= target + tolerance
    }) implies f.contains(shots[i]) by {
        shots.lemma_filter_contains(pred, i);
    }
}

/// Keeps the shots whose length fits the target (see `length_ok`), in order.
pub fn filter_shots_by_length(shots: Vec<CutShot>, target: i64, tolerance: i64) -> (r: Vec<CutShot>)
    ensures
        shot_views(r@) == shot_views(shots@).filter(|s: ShotView| length_ok(s, target as int, tolerance as int)),
        forall|i: int| 0 <= i < r@.len() ==> {
            let d = (#[trigger] r@[i]).end - r@[i].start;
            &&& d >= target
            &&& d >= 2000
            &&& d <= target + tolerance
        },
        forall|i: int| 0 <= i < shots@.len() && ({
            let d = (#[trigger] shots@[i]).end - shots@[i].start;
            d >= target && d >= 2000 && d <= target + tolerance
        }) ==> shot_views(r@).contains(shots@[i]@),
{
    let ghost all = shot_views(shots@);
    let ghost pred = |s: ShotView| length_ok(s, target as int, tolerance as int);
    let min: i128 = if target > 2000 { target as i128 } else { 2000 };
    let max: i128 = target as i128 + tolerance as i128;
    let mut out: Vec<CutShot> = Vec::new();
    let mut i: usize = 0;
    while i < shots.len()
        invariant
            i <= shots@.len(),
            all == shot_views(shots@),
            min == (if target > 2000 { target as int } else { 2000 }),
            max == target + tolerance,
            pred == (|s: ShotView| length_ok(s, target as int, tolerance as int)),
            shot_views(out@) == all.take(i as int).filter(pred),
        decreases shots@.len() - i,
    {
        let d: i128 = shots[i].end as i128 - shots[i].start as i128;
        assert(all.take(i + 1).drop_last() == all.take(i as int));
        reveal_with_fuel(Seq::filter, 1);
        if min <= d && d <= max {
            out.push(shots[i].duplicate());
        }
        i = i + 1;
    }
    assert(all.take(shots@.len() as int) == all);
    proof {
        lemma_length_filter_bounds(all, target as int, tolerance as int);
        assert forall|i: int| 0 <= i < out@.len() implies {
            let d = (#[trigger] out@[i]).end - out@[i].start;
            &&& d >= target
            &&& d >= 2000
            &&& d <= target + tolerance
        } by {
            assert(shot_views(out@)[i] == out@[i]@);
        }
        assert forall|i: int| 0 <= i < shots@.len() && ({
            let d = (#[trigger] shots@[i]).end - shots@[i].start;
            d >= target && d >= 2000 && d <= target + tolerance
        }) implies shot_views(out@).contains(shots@[i]@) by {
            assert(all[i] == shots@[i]@);
        }
    }
    out
}


// ---------------------------------------------------------------------
// Fallback: times in free text
// ---------------------------------------------------------------------

/// The pattern of a time in a line of text: an optional `t:`, a number, an
/// `s` (case-insensitive); the number is capture group 1.
pub open spec fn time_pattern() -> Seq<char> {
    "(?i)(?:t:\\s*)?(\\d+\\.?\\d*)\\s*s"@
}

/// Words that mark a stretch of video as unusable.
pub open spec fn negative_words() -> Seq<Seq<char>> {
    seq!["黑屏"@, "纯色"@, "过曝"@, "对焦失败"@, "剧烈抖动"@, "静止"@, "模糊"@, "motion blur"@]
}

/// The time, in ms, that a (trimmed) line mentions, if any.
pub open spec fn line_time(line: Seq<char>) -> Option<i64> {
    match regex_capture(time_pattern(), line, 1) {
        Some(c) => seconds_text_ms(c),
        None => None,
    }
}

/// The line contains one of the negative words.
pub open spec fn is_negative(line: Seq<char>) -> bool {
    exists|i: int, j: int| 0 <= i < negative_words().len() && #[trigger] occurs_at(line, negative_words()[i], j)
}

/// The number of bytes of `c` in UTF-8.
pub open spec fn utf8_width(c: char) -> nat {
    let u = c as u32;
    if u < 0x80 { 1 } else if u < 0x800 { 2 } else if u < 0x10000 { 3 } else { 4 }
}

/// The number of bytes of `s` in UTF-8 (what `str::len` gives).
pub open spec fn utf8_len(s: Seq<char>) -> nat
    decreases s.len(),
{
    if s.len() == 0 { 0 } else { utf8_len(s.drop_last()) + utf8_width(s.last()) }
}

/// Whether `v` takes more than `limit` bytes in UTF-8.
pub fn utf8_longer_than(v: &[char], limit: u64) -> (r: bool)
    ensures
        r == (utf8_len(v@) > limit),
{
    let mut acc: u64 = 0;
    let mut i: usize = 0;
    while i < v.len()
        invariant
            i <= v@.len(),
            acc == utf8_len(v@.take(i as int)),
            acc <= limit,
        decreases v@.len() - i,
    {
        assert(v@.take(i + 1).drop_last() == v@.take(i as int));
        let u = v[i] as u32;
        let w: u64 = if u < 0x80 { 1 } else if u < 0x800 { 2 } else if u < 0x10000 { 3 } else { 4 };
        if w > limit - acc {
            proof {
                lemma_utf8_len_prefix(v@, i + 1);
            }
            return true;
        }
        acc = acc + w;
        i = i + 1;
    }
    assert(v@.take(v@.len() as int) == v@);
    false
}

proof fn lemma_utf8_len_prefix(s: Seq<char>, k: int)
    requires
        0 <= k <= s.len(),
    ensures
        utf8_len(s.take(k)) <= utf8_len(s),
    decreases s.len() - k,
{
    if k < s.len() {
        assert(s.drop_last().take(k) == s.take(k));
        lemma_utf8_len_prefix(s.drop_last(), k);
    } else {
        assert(s.take(k) == s);
    }
}

/// The line speaks well of its moment: no negative word, and more than ten
/// bytes in UTF-8.
pub open spec fn is_positive(line: Seq<char>) -> bool {
    !is_negative(line) && utf8_len(line) > 10
}

/// State of the scan of a reply's lines: shots found so far, and the start
/// and reason of an open stretch.
pub struct ScanState {
    pub out: Seq<ShotView>,
    pub open: Option<(i64, Seq<char>)>,
}

/// One line of the scan. A positive line with a time opens a stretch if none
/// is open; any other line with a time closes the open stretch, keeping it as
/// a shot when it lasted at least 1 s.
pub open spec fn scan_step(st: ScanState, raw: Seq<char>) -> ScanState {
    let line = trim(raw);
    match line_time(line) {
        None => st,
        Some(t) => if is_positive(line) {
            if st.open is None {
                ScanState { out: st.out, open: Some((t, line)) }
            } else {
                st
            }
        } else {
            let out = match st.open {
                Some((start, reason)) => if t > start && t - start >= 1000 {
                    st.out.push(ShotView { start, end: t, reason: Some(reason) })
                } else {
                    st.out
                },
                None => st.out,
            };
            ScanState { out, open: None }
        },
    }
}

/// A positive line with a time, while a stretch is open, changes nothing:
/// the stretch keeps the start and reason of the line that opened it.
pub proof fn lemma_positive_line_keeps_stretch(st: ScanState, raw: Seq<char>)
    requires
        st.open is Some,
        line_time(trim(raw)) is Some,
        is_positive(trim(raw)),
    ensures
        scan_step(st, raw) == st,
{
}

/// A positive line with time `t`, when no stretch is open, opens one at `t`
/// with the line as its reason, and keeps the shots found so far.
pub proof fn lemma_positive_line_opens_stretch(st: ScanState, raw: Seq<char>, t: i64)
    requires
        st.open is None,
        line_time(trim(raw)) == Some(t),
        is_positive(trim(raw)),
    ensures
        scan_step(st, raw).open == Some((t, trim(raw))),
        scan_step(st, raw).out == st.out,
{
}

/// Any other line with time `t` closes the open stretch; the stretch becomes
/// a shot from its start to `t`, with its reason, when it lasted at least 1 s.
pub proof fn lemma_other_line_closes_stretch(st: ScanState, raw: Seq<char>, t: i64)
    requires
        line_time(trim(raw)) == Some(t),
        !is_positive(trim(raw)),
    ensures
        scan_step(st, raw).open is None,
        scan_step(st, raw).out == match st.open {
            Some((start, reason)) => if t > start && t - start >= 1000 {
                st.out.push(ShotView { start, end: t, reason: Some(reason) })
            } else {
                st.out
            },
            None => st.out,
        },
{
}

/// A line without a time changes nothing.
pub proof fn lemma_untimed_line_ignored(st: ScanState, raw: Seq<char>)
    requires
        line_time(trim(raw)) is None,
    ensures
        scan_step(st, raw) == st,
{
}

/// Once a stretch is open after line `k`, lines that are positive or carry
/// no time leave it, and the shots found, as they were: the stretch keeps the
/// start and reason of the first positive line.
pub proof fn lemma_stretch_survives_positive_lines(ls: Seq<Seq<char>>, k: int, j: int)
    requires
        0 <= k <= j <= ls.len(),
        scan_lines(ls.take(k)).open is Some,
        forall|i: int| k <= i < j ==> line_time(trim(#[trigger] ls[i])) is None || is_positive(trim(ls[i])),
    ensures
        scan_lines(ls.take(j)) == scan_lines(ls.take(k)),
    decreases j - k,
{
    if j > k {
        lemma_stretch_survives_positive_lines(ls, k, j - 1);
        assert(ls.take(j).drop_last() =~= ls.take(j - 1));
        assert(ls.take(j).last() == ls[j - 1]);
    }
}

/// A stretch opened by the positive line `k` (time `t`, no stretch open
/// before it), followed by positive or untimed lines up to the line `j` with
/// time `u` that is not positive, gives one shot from `t` to `u` with line
/// `k` as its reason, when it lasted at least 1 s; later positive lines never
/// move its start.
pub proof fn lemma_stretch_shot(ls: Seq<Seq<char>>, k: int, j: int, t: i64, u: i64)
    requires
        0 <= k < j < ls.len(),
        scan_lines(ls.take(k)).open is None,
        line_time(trim(ls[k])) == Some(t),
        is_positive(trim(ls[k])),
        forall|i: int| k < i < j ==> line_time(trim(#[trigger] ls[i])) is None || is_positive(trim(ls[i])),
        line_time(trim(ls[j])) == Some(u),
        !is_positive(trim(ls[j])),
    ensures
        scan_lines(ls.take(j + 1)).open is None,
        scan_lines(ls.take(j + 1)).out == (if u > t && u - t >= 1000 {
            scan_lines(ls.take(k)).out.push(ShotView { start: t, end: u, reason: Some(trim(ls[k])) })
        } else {
            scan_lines(ls.take(k)).out
        }),
{
    assert(ls.take(k + 1).drop_last() =~= ls.take(k));
    assert(ls.take(k + 1).last() == ls[k]);
    lemma_positive_line_opens_stretch(scan_lines(ls.take(k)), ls[k], t);
    lemma_stretch_survives_positive_lines(ls, k + 1, j);
    assert(ls.take(j + 1).drop_last() =~= ls.take(j));
    assert(ls.take(j + 1).last() == ls[j]);
    lemma_other_line_closes_stretch(scan_lines(ls.take(j)), ls[j], u);
}

/// The scan over lines `ls`, from no shots and no open stretch.
pub open spec fn scan_lines(ls: Seq<Seq<char>>) -> ScanState
    decreases ls.len(),
{
    if ls.len() == 0 {
        ScanState { out: seq![], open: None }
    } else {
        scan_step(scan_lines(ls.drop_last()), ls.last())
    }
}

/// `start + 5 s`, held at `i64::MAX`.
pub open spec fn five_seconds_after(start: i64) -> i64 {
    if start > i64::MAX - 5000 { i64::MAX } else { (start + 5000) as i64 }
}

/// The shots at the end of the scan: a stretch still open becomes a 5 s shot.
pub open spec fn scan_finish(st: ScanState) -> Seq<ShotView> {
    match st.open {
        Some((start, reason)) => st.out.push(ShotView { start, end: five_seconds_after(start), reason: Some(reason) }),
        None => st.out,
    }
}

/// The shots that free text gives, before sorting.
pub open spec fn text_shots(text: Seq<char>) -> Seq<ShotView> {
    scan_finish(scan_lines(lines(text)))
}

fn negative_word_list() -> (r: Vec<Vec<char>>)
    ensures
        crate::text::views(r@) == negative_words(),
{
    let mut r: Vec<Vec<char>> = Vec::new();
    r.push(chars_of("黑屏"));
    r.push(chars_of("纯色"));
    r.push(chars_of("过曝"));
    r.push(chars_of("对焦失败"));
    r.push(chars_of("剧烈抖动"));
    r.push(chars_of("静止"));
    r.push(chars_of("模糊"));
    r.push(chars_of("motion blur"));
    assert(views(r@) =~= negative_words());
    r
}

/// Whether the line holds a negative word.
fn has_negative_word(line: &[char]) -> (r: bool)
    ensures
        r == is_negative(line@),
{
    let words = negative_word_list();
    let mut i: usize = 0;
    while i < words.len()
        invariant
            i <= words@.len(),
            views(words@) == negative_words(),
            forall|a: int, j: int| 0 <= a < i ==> !#[trigger] occurs_at(line@, negative_words()[a], j),
        decreases words@.len() - i,
    {
        assert(views(words@)[i as int] == words@[i as int]@);
        if contains(line, words[i].as_slice()) {
            return true;
        }
        i = i + 1;
    }
    false
}

/// The time a trimmed line mentions (see `line_time`).
fn time_in_line(line: &String) -> (r: Option<i64>)
    ensures
        r == line_time(line@),
{
    match capture("(?i)(?:t:\\s*)?(\\d+\\.?\\d*)\\s*s", line.as_str(), 1) {
        Some(c) => {
            let v = chars_of(c.as_str());
            parse_seconds_ms(v.as_slice())
        },
        None => None,
    }
}

/// Reads cut proposals out of free text (the fallback when a reply holds no
/// usable JSON): the shots of `text_shots`, sorted stably by start.
pub fn parse_text_analysis(text: &str) -> (r: Vec<CutShot>)
    ensures
        stably_sorted_by_start(text_shots(text@), shot_views(r@)),
        r@.len() == text_shots(text@).len(),
{
    let all = chars_of(text);
    let ls = split_lines(all.as_slice());
    let ghost lv = lines(text@);
    let mut out: Vec<CutShot> = Vec::new();
    let mut open_start: i64 = 0;
    let mut open_reason: Option<String> = None;
    let mut i: usize = 0;
    while i < ls.len()
        invariant
            i <= ls@.len(),
            views(ls@) == lv,
            lv == lines(text@),
            ({
                let st = scan_lines(lv.take(i as int));
                &&& shot_views(out@) == st.out
                &&& match open_reason {
                    Some(r) => st.open == Some((open_start, r@)),
                    None => st.open is None,
                }
            }),
        decreases ls@.len() - i,
    {
        let ghost st = scan_lines(lv.take(i as int));
        assert(lv.take(i + 1).drop_last() == lv.take(i as int));
        assert(lv.take(i + 1).last() == ls@[i as int]@);
        let trimmed = trim_vec(ls[i].as_slice());
        let line = string_of(trimmed.as_slice());
        let ghost next = scan_step(st, lv[i as int]);
        assert(scan_lines(lv.take(i + 1)) == next);
        assert(line@ == trim(lv[i as int]));
        match time_in_line(&line) {
            None => {},
            Some(t) => {
                let neg = has_negative_word(trimmed.as_slice());
                let long = utf8_longer_than(trimmed.as_slice(), 10);
                let positive = !neg && long;
                assert(positive == is_positive(line@));
                if positive {
                    if open_reason.is_none() {
                        open_start = t;
                        open_reason = Some(line);
                    }
                } else {
                    match open_reason {
                        Some(reason) => {
                            let span: i128 = t as i128 - open_start as i128;
                            if t > open_start && span >= 1000 {
                                let ghost before = out@;
                                let shot = CutShot { start: open_start, end: t, reason: Some(reason) };
                                out.push(shot);
                                assert(shot_views(out@) == shot_views(before).push(shot@));
                            }
                        },
                        None => {},
                    }
                    open_reason = None;
                }
            },
        }
        i = i + 1;
    }
    assert(lv.take(ls@.len() as int) == lv);
    match open_reason {
        Some(reason) => {
            let end = if open_start > i64::MAX - 5000 { i64::MAX } else { open_start + 5000 };
            let ghost before = out@;
            let shot = CutShot { start: open_start, end, reason: Some(reason) };
            out.push(shot);
            assert(shot_views(out@) == shot_views(before).push(shot@));
        },
        None => {},
    }
    sort_shots_by_start(out)
}


// ---------------------------------------------------------------------
// Cut proposals in a reply
// ---------------------------------------------------------------------

/// The reply with surrounding whitespace dropped and, when it starts with a
/// code fence, the fence marks (a leading `json` tag included) removed.
pub open spec fn fence_stripped(content: Seq<char>) -> Seq<char> {
    let s = trim(content);
    if occurs_at(s, "```"@, 0) {
        trim(strip_suffixes(strip_prefixes(strip_prefixes(s, "```json"@), "```"@), "```"@))
    } else {
        s
    }
}

/// The text from the first `[` to the last `]` of `s`, if both occur.
pub open spec fn bracketed(s: Seq<char>) -> Option<Seq<char>> {
    match (find_first(s, seq!['[']), last_index(s, ']')) {
        (Some(a), Some(b)) => Some(s.subrange(a, b + 1)),
        _ => None,
    }
}

/// When `s` holds both a `[` and a `]`, the first `[` is not after the last
/// `]` (the text between them can be taken).
pub open spec fn brackets_in_order(s: Seq<char>) -> bool {
    match (find_first(s, seq!['[']), last_index(s, ']')) {
        (Some(a), Some(b)) => a <= b,
        _ => true,
    }
}

/// The shots that the bracketed part of `s` gives as a JSON array of
/// `{start, end, reason}` objects (none when it is missing or not an array).
pub open spec fn json_shots(s: Seq<char>) -> Seq<ShotView> {
    match bracketed(s) {
        Some(sub) => match json_records(sub, "start"@, "end"@, "reason"@) {
            Some(rs) => shots_of_records(rs),
            None => seq![],
        },
        None => seq![],
    }
}

/// Some prefix of `s` takes exactly `n` bytes in UTF-8.
pub open spec fn has_byte_prefix(s: Seq<char>, n: nat) -> bool {
    exists|k: int| 0 <= k <= s.len() && utf8_len(#[trigger] s.take(k)) == n
}

/// The longest prefix of `s` that takes at most `n` bytes in UTF-8.
pub open spec fn byte_prefix(s: Seq<char>, n: nat) -> Seq<char> {
    s.take(choose|k: int| 0 <= k <= s.len() && utf8_len(#[trigger] s.take(k)) <= n && (k == s.len() || utf8_len(s.take(k + 1)) > n))
}

/// The message when no proposal can be read: a fixed text and the first 200
/// bytes of the reply.
pub open spec fn no_proposal_message(s: Seq<char>) -> Seq<char> {
    "无法从 AI 响应中提取切段信息: "@ + byte_prefix(s, if utf8_len(s) < 200 { utf8_len(s) } else { 200 })
}

/// A reply can be read without cutting text inside a character: its
/// brackets are in order, and when it yields no proposal at all, its first
/// `min(length, 200)` bytes end at a character boundary.
pub open spec fn reply_readable(content: Seq<char>) -> bool {
    let s = fence_stripped(content);
    &&& brackets_in_order(s)
    &&& (json_shots(s).len() == 0 && text_shots(s).len() == 0 ==> has_byte_prefix(s, if utf8_len(s) < 200 { utf8_len(s) } else { 200 }))
}

/// `fence_stripped(content)`.
pub fn strip_fences(content: &str) -> (r: Vec<char>)
    ensures
        r@ == fence_stripped(content@),
{
    let all = chars_of(content);
    let s = trim_vec(all.as_slice());
    let fence = chars_of("```");
    if starts_with(s.as_slice(), fence.as_slice()) {
        let tag = chars_of("```json");
        let a = strip_prefixes_vec(s.as_slice(), tag.as_slice());
        let b = strip_prefixes_vec(a.as_slice(), fence.as_slice());
        let c = strip_suffixes_vec(b.as_slice(), fence.as_slice());
        trim_vec(c.as_slice())
    } else {
        s
    }
}

/// The shots of the bracketed JSON array in `s` (see `json_shots`).
pub fn json_candidate_shots(s: &[char]) -> (r: Vec<CutShot>)
    requires
        brackets_in_order(s@),
    ensures
        shot_views(r@) == json_shots(s@),
{
    let open = ['['];
    assert(open@ == seq!['[']);
    let a = find(s, &open);
    let b = rfind_char(s, ']');
    match (a, b) {
        (Some(a), Some(b)) => {
            let len = s.len();
            assert(b < len);
            let sub = sub_vec(s, a, b + 1);
            let text = string_of(sub.as_slice());
            match records(text.as_str(), "start", "end", "reason") {
                Some(rs) => shots_from_records(&rs),
                None => Vec::new(),
            }
        },
        _ => Vec::new(),
    }
}

/// The prefix of `s` that takes exactly `n` bytes in UTF-8, if there is one.
pub fn exact_byte_prefix(s: &[char], n: u64) -> (r: Option<Vec<char>>)
    ensures
        match r {
            Some(p) => has_byte_prefix(s@, n as nat) && p@ == byte_prefix(s@, n as nat),
            None => !has_byte_prefix(s@, n as nat),
        },
{
    let mut acc: u64 = 0;
    let mut i: usize = 0;
    while i < s.len() && acc < n
        invariant
            i <= s@.len(),
            acc == utf8_len(s@.take(i as int)),
            acc <= n,
            forall|k: int| 0 <= k < i ==> utf8_len(#[trigger] s@.take(k)) < n,
        decreases s@.len() - i,
    {
        assert(s@.take(i + 1).drop_last() == s@.take(i as int));
        let u = s[i] as u32;
        let w: u64 = if u < 0x80 { 1 } else if u < 0x800 { 2 } else if u < 0x10000 { 3 } else { 4 };
        if w > n - acc {
            // the character at `i` runs past byte `n`
            proof {
                assert forall|k: int| 0 <= k <= s@.len() implies utf8_len(#[trigger] s@.take(k)) != n by {
                    if k > i {
                        lemma_utf8_len_prefix(s@.take(k), i + 1);
                        assert(s@.take(k).take(i + 1) == s@.take(i + 1));
                    }
                }
            }
            return None;
        }
        acc = acc + w;
        i = i + 1;
    }
    if acc != n {
        proof {
            assert(i == s@.len());
            assert forall|k: int| 0 <= k <= s@.len() implies utf8_len(#[trigger] s@.take(k)) != n by {
                if k == i {
                    assert(s@.take(k) == s@.take(i as int));
                }
            }
        }
        return None;
    }
    let p = sub_vec(s, 0, i);
    proof {
        assert(s@.subrange(0, i as int) == s@.take(i as int));
        let k = choose|k: int| 0 <= k <= s@.len() && utf8_len(#[trigger] s@.take(k)) <= n && (k == s@.len() || utf8_len(s@.take(k + 1)) > n);
        assert(has_byte_prefix(s@, n as nat));
        // `i` is the only cut that meets the description
        if i < s@.len() {
            assert(s@.take(i + 1).drop_last() == s@.take(i as int));
            assert(utf8_len(s@.take(i + 1)) > n);
        }
        assert(0 <= i <= s@.len() && utf8_len(s@.take(i as int)) <= n && (i == s@.len() || utf8_len(s@.take(i + 1)) > n));
        if k < i {
            assert(utf8_len(s@.take(k)) < n);
            lemma_utf8_len_prefix(s@.take(i as int), k + 1);
            assert(s@.take(i as int).take(k + 1) == s@.take(k + 1));
        } else if k > i {
            lemma_utf8_len_prefix(s@.take(k), i + 1);
            assert(s@.take(k).take(i + 1) == s@.take(i + 1));
        }
    }
    Some(p)
}


/// The number of bytes of `v` in UTF-8.
pub fn utf8_length(v: &[char]) -> (r: u128)
    ensures
        r == utf8_len(v@),
{
    let mut acc: u128 = 0;
    let mut i: usize = 0;
    while i < v.len()
        invariant
            i <= v@.len(),
            acc == utf8_len(v@.take(i as int)),
            acc <= 4 * i,
        decreases v@.len() - i,
    {
        assert(v@.take(i + 1).drop_last() == v@.take(i as int));
        let u = v[i] as u32;
        let w: u128 = if u < 0x80 { 1 } else if u < 0x800 { 2 } else if u < 0x10000 { 3 } else { 4 };
        acc = acc + w;
        i = i + 1;
    }
    assert(v@.take(v@.len() as int) == v@);
    acc
}

/// `r` is what the cut proposals of the reply `content` read as: the JSON
/// proposals when there are any, else the free-text ones sorted by start, else
/// an error quoting the start of the reply.
pub open spec fn reads_as(content: Seq<char>, r: Result<Vec<CutShot>, String>) -> bool {
    let s = fence_stripped(content);
    if json_shots(s).len() > 0 {
        r matches Ok(v) && shot_views(v@) == json_shots(s)
    } else if text_shots(s).len() > 0 {
        r matches Ok(v) && stably_sorted_by_start(text_shots(s), shot_views(v@))
    } else {
        r matches Err(e) && e@ == no_proposal_message(s)
    }
}

fn read_reply(content: &str) -> (r: Option<Result<Vec<CutShot>, String>>)
    ensures
        r is Some <==> reply_readable(content@),
        r matches Some(x) ==> reads_as(content@, x),
{
    let s = strip_fences(content);
    let open = ['['];
    assert(open@ == seq!['[']);
    match (find(s.as_slice(), &open), rfind_char(s.as_slice(), ']')) {
        (Some(a), Some(b)) => {
            if a > b {
                return None;
            }
        },
        _ => {},
    }
    let js = json_candidate_shots(s.as_slice());
    if js.len() > 0 {
        return Some(Ok(js));
    }
    let text = string_of(s.as_slice());
    let fallback = parse_text_analysis(text.as_str());
    assert(text@ == s@);
    if fallback.len() > 0 {
        assert(json_shots(s@).len() == 0);
        assert(text_shots(s@).len() > 0);
        assert(stably_sorted_by_start(text_shots(s@), shot_views(fallback@)));
        return Some(Ok(fallback));
    }
    let total = utf8_length(s.as_slice());
    let n: u64 = if total < 200 { total as u64 } else { 200 };
    match exact_byte_prefix(s.as_slice(), n) {
        Some(p) => {
            let mut msg = chars_of("无法从 AI 响应中提取切段信息: ");
            push_all(&mut msg, p.as_slice());
            let e = string_of(msg.as_slice());
            assert(e@ == no_proposal_message(s@));
            assert(reads_as(content@, Err(e)));
            Some(Err(e))
        },
        None => None,
    }
}

/// Reads the cut proposals of a model reply (see `reads_as`).
pub fn parse_segments_json(content: &str) -> (r: Result<Vec<CutShot>, String>)
    requires
        reply_readable(content@),
    ensures
        reads_as(content@, r),
{
    match read_reply(content) {
        Some(x) => x,
        None => Err(String::new()),
    }
}

/// Reads the cut proposals of a model reply (see `reads_as`); `None` when the
/// reply is not `reply_readable`, where reading it would cut text inside a
/// character.
pub fn segments_from_reply(content: &str) -> (r: Option<Result<Vec<CutShot>, String>>)
    ensures
        r is Some <==> reply_readable(content@),
        r matches Some(x) ==> reads_as(content@, x),
{
    match read_reply(content) {
        Some(_) => Some(parse_segments_json(content)),
        None => None,
    }
}

// ---------------------------------------------------------------------
// The text of a reply
// ---------------------------------------------------------------------

/// What one line of a streamed (server-sent events) reply contributes: the
/// message content, or else the delta content, of the JSON after `data:`;
/// nothing for blank lines, comments, the end marker and other lines.
pub open spec fn sse_piece(raw: Seq<char>) -> Seq<char> {
    let l = trim(raw);
    if l.len() == 0 || occurs_at(l, ":"@, 0) || l == "data: [DONE]"@ {
        seq![]
    } else if occurs_at(l, "data:"@, 0) {
        let payload = trim(l.skip(5));
        if payload.len() == 0 {
            seq![]
        } else {
            match crate::json::json_str_at(payload, "choices"@, 0, "message"@, "content"@) {
                Some(c) => c,
                None => match crate::json::json_str_at(payload, "choices"@, 0, "delta"@, "content"@) {
                    Some(c) => c,
                    None => seq![],
                },
            }
        }
    } else {
        seq![]
    }
}

/// The contributions of lines `ls`, joined.
pub open spec fn sse_text(ls: Seq<Seq<char>>) -> Seq<char>
    decreases ls.len(),
{
    if ls.len() == 0 {
        seq![]
    } else {
        sse_text(ls.drop_last()) + sse_piece(ls.last())
    }
}

/// The text of a model reply: for a streamed reply, the joined contents of
/// its events when that is not empty; else the message content of a plain
/// JSON reply; else the reply itself.
pub open spec fn reply_content(raw: Seq<char>) -> Seq<char> {
    if (exists|i: int| occurs_at(raw, "data:"@, i)) && sse_text(lines(raw)).len() > 0 {
        sse_text(lines(raw))
    } else {
        match crate::json::json_str_at(raw, "choices"@, 0, "message"@, "content"@) {
            Some(c) => c,
            None => raw,
        }
    }
}

/// A streamed line `data:` followed by a payload contributes the same text
/// whether or not a space follows the colon: the message content of the
/// trimmed payload read as JSON, else its delta content, else nothing
/// (nothing for a blank payload). The end marker `[DONE]` is the one payload
/// left out.
pub proof fn lemma_sse_data_line(p: Seq<char>)
    requires
        trim(p) != "[DONE]"@,
    ensures
        sse_piece("data:"@ + p) == sse_piece("data: "@ + p),
        sse_piece("data:"@ + p) == (if trim(p).len() == 0 {
            seq![]
        } else {
            match crate::json::json_str_at(trim(p), "choices"@, 0, "message"@, "content"@) {
                Some(c) => c,
                None => match crate::json::json_str_at(trim(p), "choices"@, 0, "delta"@, "content"@) {
                    Some(c) => c,
                    None => seq![],
                },
            }
        }),
{
    reveal_strlit(":");
    reveal_strlit("data:");
    reveal_strlit("data: ");
    reveal_strlit("data: [DONE]");
    reveal_strlit("[DONE]");
    let d = "data:"@;
    let q = seq![' '] + p;
    assert("data: "@ + p == d + q);
    crate::text::lemma_trim_ws_front(' ', p);
    lemma_sse_data_trimmed(p, p);
    lemma_sse_data_trimmed(q, p);
}

proof fn lemma_sse_data_trimmed(x: Seq<char>, p: Seq<char>)
    requires
        trim(x) == trim(p),
        trim(p) != "[DONE]"@,
    ensures
        ({
            let l = trim("data:"@ + x);
            &&& l.len() > 0
            &&& !occurs_at(l, ":"@, 0)
            &&& occurs_at(l, "data:"@, 0)
            &&& l != "data: [DONE]"@
            &&& trim(l.skip(5)) == trim(p)
        }),
{
    reveal_strlit(":");
    reveal_strlit("data:");
    reveal_strlit("data: [DONE]");
    reveal_strlit("[DONE]");
    let d = "data:"@;
    assert(trim_end(d) == d);
    let done = "[DONE]"@;
    assert(trim_start(done) == done);
    assert(trim_end(done) == done);
    let s = d + x;
    assert(s[0] == 'd');
    assert(trim_start(s) == s);
    crate::text::lemma_trim_end_append(d, x);
    if trim_end(x).len() == 0 {
        assert(d + trim_end(x) == d);
    }
    let l = trim(s);
    assert(l == d + trim_end(x));
    assert(l[0] == 'd');
    assert(l.subrange(0, 1)[0] == 'd');
    assert(":"@[0] == ':');
    assert(l.subrange(0, 5) == d);
    assert(l.skip(5) == trim_end(x));
    crate::text::lemma_trim_of_trim_end(x);
    if l == "data: [DONE]"@ {
        assert(trim_end(x) == seq![' '] + done);
        crate::text::lemma_trim_ws_front(' ', done);
        assert(trim(x) == done);
    }
}

fn sse_line_piece(raw: &[char]) -> (r: Vec<char>)
    ensures
        r@ == sse_piece(raw@),
{
    proof {
        reveal_strlit(":");
        reveal_strlit("data:");
        reveal_strlit("data: [DONE]");
    }
    let l = trim_vec(raw);
    let colon = chars_of(":");
    let done = chars_of("data: [DONE]");
    let data = chars_of("data:");
    let is_done = l.len() == done.len() && starts_with(l.as_slice(), done.as_slice());
    proof {
        assert(l@.len() == done@.len() ==> l@.subrange(0, done@.len() as int) == l@);
    }
    assert(is_done == (l@ == "data: [DONE]"@));
    if l.len() == 0 || starts_with(l.as_slice(), colon.as_slice()) || is_done {
        return Vec::new();
    }
    if !starts_with(l.as_slice(), data.as_slice()) {
        return Vec::new();
    }
    let rest = sub_vec(l.as_slice(), 5, l.len());
    assert(l@.subrange(5, l@.len() as int) == l@.skip(5));
    let payload = trim_vec(rest.as_slice());
    if payload.len() == 0 {
        return Vec::new();
    }
    let text = string_of(payload.as_slice());
    match crate::json::str_at(text.as_str(), "choices", 0, "message", "content") {
        Some(c) => chars_of(c.as_str()),
        None => match crate::json::str_at(text.as_str(), "choices", 0, "delta", "content") {
            Some(c) => chars_of(c.as_str()),
            None => Vec::new(),
        },
    }
}

/// The text of a model reply (see `reply_content`).
pub fn extract_content_sse_or_json(raw: &str) -> (r: String)
    ensures
        r@ == reply_content(raw@),
{
    let all = chars_of(raw);
    let data = chars_of("data:");
    if contains(all.as_slice(), data.as_slice()) {
        let ls = split_lines(all.as_slice());
        let mut combined: Vec<char> = Vec::new();
        let mut i: usize = 0;
        while i < ls.len()
            invariant
                i <= ls@.len(),
                views(ls@) == lines(raw@),
                combined@ == sse_text(lines(raw@).take(i as int)),
            decreases ls@.len() - i,
        {
            assert(lines(raw@).take(i + 1).drop_last() == lines(raw@).take(i as int));
            assert(views(ls@)[i as int] == ls@[i as int]@);
            let piece = sse_line_piece(ls[i].as_slice());
            push_all(&mut combined, piece.as_slice());
            i = i + 1;
        }
        assert(lines(raw@).take(ls@.len() as int) == lines(raw@));
        if combined.len() > 0 {
            return string_of(combined.as_slice());
        }
    }
    match crate::json::str_at(raw, "choices", 0, "message", "content") {
        Some(c) => c,
        None => String::from_str(raw),
    }
}


// ---------------------------------------------------------------------
// The request sent to the model
// ---------------------------------------------------------------------

/// An extracted frame: its file, its time in the source (ms), and its image
/// in base64.
#[derive(Debug)]
pub struct FrameShot {
    pub path: String,
    pub t: i64,
    pub data_base64: String,
}

/// `items` joined with `sep` between them.
pub open spec fn joined_with(items: Seq<Seq<char>>, sep: Seq<char>) -> Seq<char>
    decreases items.len(),
{
    if items.len() == 0 {
        seq![]
    } else if items.len() == 1 {
        items[0]
    } else {
        joined_with(items.drop_last(), sep) + sep + items.last()
    }
}

/// The label of a frame time: seconds with two decimals and an `s`.
pub open spec fn time_label(t: i64) -> Seq<char> {
    fixed(t as int, 2) + seq!['s']
}

/// The labels of frame times.
pub open spec fn time_labels(ts: Seq<i64>) -> Seq<Seq<char>> {
    ts.map_values(|t: i64| time_label(t))
}

/// How the frame times are described: all of them up to 15, else the first
/// five, five around the middle, the last five, and the count.
pub open spec fn time_summary(ts: Seq<i64>) -> Seq<char> {
    let n = ts.len();
    let l = time_labels(ts);
    if n <= 15 {
        joined_with(l, ", "@)
    } else {
        let m = n / 2 - 2;
        "前段: "@ + joined_with(l.take(5), ", "@) + " → 中段: "@ + joined_with(l.subrange(m as int, m + 5), ", "@)
            + " → 后段: "@ + joined_with(l.skip(n - 5), ", "@) + " (共 "@ + decimal(n) + " 帧)"@
    }
}

/// The requirement fields as lines `**key**：value`, each after a line break,
/// keys and values trimmed, fields with an empty key or value left out.
pub open spec fn context_text(fields: Seq<FieldView>) -> Seq<char>
    decreases fields.len(),
{
    if fields.len() == 0 {
        seq![]
    } else {
        let f = fields.last();
        let k = trim(f.key);
        let v = trim(f.value);
        if k.len() == 0 || v.len() == 0 {
            context_text(fields.drop_last())
        } else {
            context_text(fields.drop_last()) + "\n**"@ + k + "**："@ + v
        }
    }
}

/// Where the frames lie in the whole video, said when the window does not
/// start at 0.
pub open spec fn window_text(duration: int, offset: int) -> Seq<char> {
    if offset > 0 {
        "（这是整段视频的 ["@ + shortest(offset) + "]~["@ + shortest(offset + duration) + "]s 切片，绝对时间戳要加 "@
            + shortest(offset) + "s"@ + "）"@
    } else {
        seq![]
    }
}

/// The request text for frames at times `ts` of a window of `duration` ms
/// starting at `offset` ms, under the requirement `req`.
pub open spec fn prompt_text(req: crate::config::RequirementView, ts: Seq<i64>, duration: int, offset: int) -> Seq<char> {
    let target = req.target_duration_ms as int;
    let min = target;
    let max = target + req.tolerance_ms;
    "你是一个专业的视频素材挑选专家。"@ + context_text(req.fields) + "\n\n         这是一段"@ + fixed(duration, 0) + "秒视频的连续抽帧，共 "@ + decimal(ts.len()) + " 帧。每张图左上角**已画上时间戳水印**（如 t: 12.5s），\n         时间分布："@
        + time_summary(ts) + "\n\n         **任务**：从这些帧里挑出最值得保留的\"插入素材镜头\""@ + window_text(duration, offset) + "，每段 "@ + fixed(target, 1) + " 秒（允许 "@
        + fixed(min, 1) + "~"@ + fixed(max, 1) + " 秒）。\n\n         **跳过**：黑屏/纯色/过曝/对焦失败/剧烈抖动/长时间静止。\n\n         **输出严格 JSON 数组**（不要任何其他文字）：\n         ```\n         [\n         { \"start\": <秒>, \"end\": <秒>, \"reason\": \"<一句话为什么选它>\" },\n         ...\n         ]\n```\n\n         要求：\n         - **以图上时间戳为准**（图上水印的 t 才是真实时间）\n         - start/end 用时间戳\n         - 只选真正可用的好镜头，宁缺毋滥\n         - 每段尽量在 "@ + fixed(min, 1) + "~"@ + fixed(max, 1) + " 秒之间\n         - reason 中文一句话精炼"@
}


/// Appends the label of a frame time.
fn push_time_label(out: &mut Vec<char>, t: i64)
    ensures
        final(out)@ == old(out)@ + time_label(t),
{
    push_fixed(out, t as i128, 2);
    out.push('s');
}

/// Appends the labels of `ts[lo..hi]`, joined with `, `.
fn push_joined_labels(out: &mut Vec<char>, ts: &[i64], lo: usize, hi: usize)
    requires
        lo <= hi <= ts@.len(),
    ensures
        final(out)@ == old(out)@ + joined_with(time_labels(ts@).subrange(lo as int, hi as int), ", "@),
{
    let ghost l = time_labels(ts@);
    let mut i = lo;
    while i < hi
        invariant
            lo <= i <= hi <= ts@.len(),
            l == time_labels(ts@),
            out@ == old(out)@ + joined_with(l.subrange(lo as int, i as int), ", "@),
        decreases hi - i,
    {
        let ghost before = out@;
        assert(l.subrange(lo as int, i + 1).drop_last() == l.subrange(lo as int, i as int));
        assert(l.subrange(lo as int, i + 1).last() == time_label(ts@[i as int]));
        if i > lo {
            push_str(out, ", ");
        } else {
            assert(l.subrange(lo as int, i + 1) == seq![time_label(ts@[i as int])]);
        }
        push_time_label(out, ts[i]);
        i = i + 1;
    }
}

/// Appends `time_summary(ts)`.
fn push_time_summary(out: &mut Vec<char>, ts: &[i64])
    ensures
        final(out)@ == old(out)@ + time_summary(ts@),
{
    let n = ts.len();
    let ghost l = time_labels(ts@);
    if n <= 15 {
        push_joined_labels(out, ts, 0, n);
        assert(l.subrange(0, n as int) == l);
    } else {
        let m = n / 2 - 2;
        push_str(out, "前段: ");
        push_joined_labels(out, ts, 0, 5);
        push_str(out, " → 中段: ");
        push_joined_labels(out, ts, m, m + 5);
        push_str(out, " → 后段: ");
        push_joined_labels(out, ts, n - 5, n);
        push_str(out, " (共 ");
        push_decimal(out, n as u128);
        push_str(out, " 帧)");
        assert(l.subrange(0, 5) == l.take(5));
        assert(l.subrange(n - 5, n as int) == l.skip(n - 5));
    }
}

/// Appends `context_text` of the fields `fs`.
fn push_context(out: &mut Vec<char>, fs: &Vec<crate::config::ReqField>)
    ensures
        final(out)@ == old(out)@ + context_text(field_views(fs@)),
{
    let ghost all = field_views(fs@);
    let mut i: usize = 0;
    while i < fs.len()
        invariant
            i <= fs@.len(),
            all == field_views(fs@),
            out@ == old(out)@ + context_text(all.take(i as int)),
        decreases fs@.len() - i,
    {
        assert(all.take(i + 1).drop_last() == all.take(i as int));
        assert(all.take(i + 1).last() == fs@[i as int]@);
        let kv = chars_of(fs[i].key.as_str());
        let vv = chars_of(fs[i].value.as_str());
        let k = trim_vec(kv.as_slice());
        let v = trim_vec(vv.as_slice());
        if k.len() > 0 && v.len() > 0 {
            push_str(out, "\n**");
            push_all(out, k.as_slice());
            push_str(out, "**：");
            push_all(out, v.as_slice());
        }
        i = i + 1;
    }
    assert(all.take(fs@.len() as int) == all);
}

/// Appends `window_text(duration, offset)`.
fn push_window(out: &mut Vec<char>, duration: i64, offset: i64)
    ensures
        final(out)@ == old(out)@ + window_text(duration as int, offset as int),
{
    if offset > 0 {
        push_str(out, "（这是整段视频的 [");
        push_shortest(out, offset as i128);
        push_str(out, "]~[");
        push_shortest(out, offset as i128 + duration as i128);
        push_str(out, "]s 切片，绝对时间戳要加 ");
        push_shortest(out, offset as i128);
        push_str(out, "s");
        push_str(out, "）");
    }
}

/// The request text for a batch of frames (see `prompt_text`).
pub fn build_prompt(req: &CutRequirement, frames: &[FrameShot], video_duration: i64, chunk_offset: i64) -> (r: String)
    ensures
        r@ == prompt_text(req@, frames@.map_values(|f: FrameShot| f.t), video_duration as int, chunk_offset as int),
{
    let mut ts: Vec<i64> = Vec::new();
    let mut i: usize = 0;
    while i < frames.len()
        invariant
            i <= frames@.len(),
            ts@ == frames@.map_values(|f: FrameShot| f.t).take(i as int),
        decreases frames@.len() - i,
    {
        ts.push(frames[i].t);
        i = i + 1;
        assert(ts@ == frames@.map_values(|f: FrameShot| f.t).take(i as int));
    }
    assert(ts@ == frames@.map_values(|f: FrameShot| f.t));
    let target = req.target_duration_ms as i128;
    let max = target + req.tolerance_ms as i128;
    let mut out: Vec<char> = Vec::new();
    push_str(&mut out, "你是一个专业的视频素材挑选专家。");
    push_context(&mut out, &req.fields);
    push_str(&mut out, "\n\n         这是一段");
    push_fixed(&mut out, video_duration as i128, 0);
    push_str(&mut out, "秒视频的连续抽帧，共 ");
    push_decimal(&mut out, ts.len() as u128);
    push_str(&mut out, " 帧。每张图左上角**已画上时间戳水印**（如 t: 12.5s），\n         时间分布：");
    push_time_summary(&mut out, ts.as_slice());
    push_str(&mut out, "\n\n         **任务**：从这些帧里挑出最值得保留的\"插入素材镜头\"");
    push_window(&mut out, video_duration, chunk_offset);
    push_str(&mut out, "，每段 ");
    push_fixed(&mut out, target, 1);
    push_str(&mut out, " 秒（允许 ");
    push_fixed(&mut out, target, 1);
    push_str(&mut out, "~");
    push_fixed(&mut out, max, 1);
    push_str(&mut out, " 秒）。\n\n         **跳过**：黑屏/纯色/过曝/对焦失败/剧烈抖动/长时间静止。\n\n         **输出严格 JSON 数组**（不要任何其他文字）：\n         ```\n         [\n         { \"start\": <秒>, \"end\": <秒>, \"reason\": \"<一句话为什么选它>\" },\n         ...\n         ]\n```\n\n         要求：\n         - **以图上时间戳为准**（图上水印的 t 才是真实时间）\n         - start/end 用时间戳\n         - 只选真正可用的好镜头，宁缺毋滥\n         - 每段尽量在 ");
    push_fixed(&mut out, target, 1);
    push_str(&mut out, "~");
    push_fixed(&mut out, max, 1);
    push_str(&mut out, " 秒之间\n         - reason 中文一句话精炼");
    string_of(out.as_slice())
}

} // verus!
