//! Planning of cuts: analysis windows, fixed-length segments, and the names
//! of the files that segments are written to.
use vstd::prelude::*;
use std::collections::hash_map::DefaultHasher;
use std::hash::Hasher;
use vstd::std_specs::hash::DefaultHasherAdditionalSpecFns;
use vstd::string::StringSliceAdditionalSpecFns;
use crate::text::{chars_of, string_of, push_str, push_all, push_decimal, push_zero_padded, rfind_char, last_index, decimal, zero_padded, sub_vec, digit_to_char, digit_char};
use crate::config::{joined, join_path};
use crate::text::{occurs_at, starts_with, ends_with, views, same_text};
use crate::number::{u32_text_value, parse_u32, digits_value, all_digits};
use crate::seconds::{fixed, shortest, push_fixed, push_shortest};
use crate::order::{is_stable_order, stable_order};

verus! {

/// The analysis windows of a video of `duration` ms, each `chunk` ms long
/// except possibly the last: window `i` runs from `i * chunk` to
/// `min((i + 1) * chunk, duration)`. A video of no length, or a window length
/// of zero or less, gives the single window `(0, max(duration, 0))`.
pub open spec fn time_chunks(duration: int, chunk: int) -> Seq<(i64, i64)> {
    if duration <= 0 || chunk <= 0 {
        seq![(0i64, (if duration > 0 { duration } else { 0 }) as i64)]
    } else {
        Seq::new(
            ((duration as int + chunk as int - 1) / (chunk as int)) as nat,
            |i: int| ((i * chunk) as i64, (if (i + 1) * chunk < duration { (i + 1) * chunk } else { duration }) as i64),
        )
    }
}

/// Splits a duration into analysis windows (see `time_chunks`).
pub fn split_into_time_chunks(duration: i64, chunk: i64) -> (r: Vec<(i64, i64)>)
    ensures
        r@ == time_chunks(duration as int, chunk as int),
{
    let mut out: Vec<(i64, i64)> = Vec::new();
    if duration <= 0 || chunk <= 0 {
        out.push((0, if duration > 0 { duration } else { 0 }));
        return out;
    }
    let ghost n = ((duration as int + chunk as int - 1) / (chunk as int)) as nat;
    let ghost target = time_chunks(duration as int, chunk as int);
    let mut t: i64 = 0;
    proof {
        assert(n >= 1) by (nonlinear_arith)
            requires duration > 0, chunk > 0, n == (duration as int + chunk as int - 1) / (chunk as int);
    }
    while t < duration
        invariant
            duration > 0,
            chunk > 0,
            target == time_chunks(duration as int, chunk as int),
            n == target.len(),
            0 <= t <= duration,
            out@.len() <= n,
            t == if out@.len() * chunk < duration { out@.len() * chunk } else { duration as int },
            t < duration ==> out@.len() < n,
            t == duration ==> out@.len() == n,
            out@ == target.take(out@.len() as int),
        decreases duration - t,
    {
        let k = out.len();
        proof {
            assert(t == k * chunk);
        }
        let end: i64 = if chunk >= duration - t { duration } else { t + chunk };
        out.push((t, end));
        proof {
            assert((k + 1) * chunk == k * chunk + chunk) by (nonlinear_arith);
            assert(target[k as int] == ((k * chunk) as i64, (if (k + 1) * chunk < duration { (k + 1) * chunk } else { duration as int }) as i64));
            assert(out@ == target.take(k + 1));
            if end < duration {
                // k + 1 full windows still leave something over
                assert((k + 1) * chunk < duration);
                assert(k + 1 < n) by (nonlinear_arith)
                    requires (k + 1) * chunk < duration, chunk > 0, n == (duration as int + chunk as int - 1) / (chunk as int);
            } else {
                assert((k + 1) * chunk >= duration);
                assert(k + 1 >= n) by (nonlinear_arith)
                    requires (k + 1) * chunk >= duration, chunk > 0, n == (duration as int + chunk as int - 1) / (chunk as int), k < n;
                assert(k + 1 <= n);
            }
        }
        t = end;
    }
    proof {
        assert(out@ == target.take(n as int));
        assert(target.take(n as int) == target);
    }
    out
}


/// The windows of a positive duration tile it: they start at 0, each one
/// starts where the previous ends, the last ends at the duration, each is
/// non-empty and at most `chunk` long, and all but the last are exactly
/// `chunk` long.
pub proof fn lemma_time_chunks_tile(duration: i64, chunk: i64)
    requires
        duration > 0,
        chunk > 0,
    ensures
        ({
            let r = time_chunks(duration as int, chunk as int);
            &&& r.len() >= 1
            &&& r[0].0 == 0
            &&& r[r.len() - 1].1 == duration
            &&& forall|i: int| 0 <= i < r.len() - 1 ==> (#[trigger] r[i]).1 == r[i + 1].0
            &&& forall|i: int| 0 <= i < r.len() ==> 0 < (#[trigger] r[i]).1 - r[i].0 <= chunk
            &&& forall|i: int| 0 <= i < r.len() - 1 ==> (#[trigger] r[i]).1 - r[i].0 == chunk
        }),
{
    let r = time_chunks(duration as int, chunk as int);
    let n = (duration as int + chunk as int - 1) / (chunk as int);
    assert(n >= 1 && (n - 1) * chunk < duration && n * chunk >= duration) by (nonlinear_arith)
        requires duration > 0, chunk > 0, n == (duration as int + chunk as int - 1) / (chunk as int);
    assert forall|i: int| 0 <= i < n implies 0 <= #[trigger] (i * chunk) < duration by {
        assert(0 <= i * chunk <= (n - 1) * chunk) by (nonlinear_arith)
            requires 0 <= i < n, chunk > 0;
    }
    assert forall|i: int| 0 <= i < r.len() - 1 implies (#[trigger] r[i]).1 == r[i + 1].0 by {
        assert((i + 1) * chunk == i * chunk + chunk) by (nonlinear_arith);
        assert(0 <= (i + 1) * chunk < duration);
    }
    assert forall|i: int| 0 <= i < r.len() implies 0 < (#[trigger] r[i]).1 - r[i].0 <= chunk by {
        assert((i + 1) * chunk == i * chunk + chunk) by (nonlinear_arith);
        assert(0 <= i * chunk < duration);
    }
    assert forall|i: int| 0 <= i < r.len() - 1 implies (#[trigger] r[i]).1 - r[i].0 == chunk by {
        assert((i + 1) * chunk == i * chunk + chunk) by (nonlinear_arith);
        assert(0 <= (i + 1) * chunk < duration);
    }
    assert(0 * chunk == 0);
    assert(0 <= (n - 1) * chunk < duration);
    assert((n - 1 + 1) * chunk == n * chunk);
}

/// The plan of a plain cut of a video of `duration` ms into segments of
/// `target` ms: one segment `(k * target, (k + 1) * target)` for each whole
/// target length that fits, then, unless `trim_last` is set, one segment for
/// what is left over, up to `duration`. Nothing for a video of no length.
pub open spec fn pure_cut_plan(duration: int, target: int, trim_last: bool) -> Seq<(i64, i64)> {
    if duration <= 0 {
        Seq::empty()
    } else {
        let n = duration / target;
        let full = Seq::new(n as nat, |k: int| ((k * target) as i64, ((k + 1) * target) as i64));
        if !trim_last && duration % target != 0 {
            full.push(((n * target) as i64, duration as i64))
        } else {
            full
        }
    }
}

/// Plans a plain cut (see `pure_cut_plan`). A target of zero or less never
/// gets past the start of a video that has a length, so such a pair is not
/// accepted.
pub fn plan_pure_cut(duration: i64, target: i64, trim_last: bool) -> (r: Vec<(i64, i64)>)
    requires
        duration <= 0 || target > 0,
    ensures
        r@ == pure_cut_plan(duration as int, target as int, trim_last),
{
    let mut shots: Vec<(i64, i64)> = Vec::new();
    if duration <= 0 {
        return shots;
    }
    let ghost n = duration as int / target as int;
    let ghost full = Seq::new(n as nat, |k: int| ((k * target) as i64, ((k + 1) * target) as i64));
    let mut cursor: i64 = 0;
    assert(shots@.len() == 0);
    assert(0 * target == 0) by (nonlinear_arith);
    assert(shots@ == full.take(0));
    while cursor < duration
        invariant_except_break
            duration > 0,
            target > 0,
            n == duration as int / target as int,
            full == Seq::new(n as nat, |k: int| ((k * target) as i64, ((k + 1) * target) as i64)),
            cursor == shots@.len() * target,
            shots@.len() <= n,
            shots@ == full.take(shots@.len() as int),
            0 <= cursor <= duration,
            cursor == duration ==> shots@ == pure_cut_plan(duration as int, target as int, trim_last),
        ensures
            shots@ == pure_cut_plan(duration as int, target as int, trim_last),
        decreases duration - cursor,
    {
        let k = shots.len();
        if target > duration - cursor {
            // the rest is shorter than a whole segment
            proof {
                assert(k == n) by (nonlinear_arith)
                    requires cursor == k * target, target > duration - cursor, cursor < duration, n == duration / target, target > 0, k <= n;
                assert(shots@ == full);
                assert((duration as int) % (target as int) != 0) by (nonlinear_arith)
                    requires cursor == n * target, cursor < duration, n == duration / target, target > 0;
            }
            if trim_last {
                break;
            } else {
                shots.push((cursor, duration));
                break;
            }
        }
        let end = cursor + target;
        proof {
            assert(k < n) by (nonlinear_arith)
                requires cursor == k * target, target <= duration - cursor, n == duration / target, target > 0;
            assert((k + 1) * target == k * target + target) by (nonlinear_arith);
            assert(full[k as int] == ((k * target) as i64, ((k + 1) * target) as i64));
        }
        shots.push((cursor, end));
        cursor = end;
        proof {
            assert(shots@ == full.take(shots@.len() as int));
            if cursor == duration {
                assert(shots@.len() == n) by (nonlinear_arith)
                    requires cursor == shots@.len() * target, cursor == duration, n == duration / target, target > 0;
                assert((duration as int) % (target as int) == 0) by (nonlinear_arith)
                    requires duration == n * target, n == duration / target, target > 0;
                assert(shots@ == full);
            }
        }
    }
    shots
}


/// A plain cut covers the video from its start without gaps: segments run
/// back to back from 0, every one but a kept remainder is exactly `target`
/// long, none reaches past the end, what is left uncut is shorter than
/// `target`, and when the remainder is kept the segments end exactly at the
/// end of the video.
pub proof fn lemma_pure_cut_covers(duration: i64, target: i64, trim_last: bool)
    requires
        duration > 0,
        target > 0,
    ensures
        ({
            let r = pure_cut_plan(duration as int, target as int, trim_last);
            let end = if r.len() == 0 { 0 } else { r[r.len() - 1].1 as int };
            &&& r.len() > 0 ==> r[0].0 == 0
            &&& forall|i: int| 0 <= i < r.len() - 1 ==> (#[trigger] r[i]).1 == r[i + 1].0
            &&& forall|i: int| 0 <= i < r.len() ==> 0 < (#[trigger] r[i]).1 - r[i].0 <= target
            &&& forall|i: int| 0 <= i < r.len() && (trim_last || i < r.len() - 1) ==> (#[trigger] r[i]).1 - r[i].0 == target
            &&& end <= duration
            &&& duration - end < target
            &&& !trim_last ==> end == duration
        }),
{
    let r = pure_cut_plan(duration as int, target as int, trim_last);
    let n = duration as int / target as int;
    assert(n * target <= duration && duration - n * target < target && n >= 0) by (nonlinear_arith)
        requires n == duration as int / target as int, target > 0, duration > 0;
    assert forall|k: int| 0 <= k <= n implies 0 <= #[trigger] (k * target) <= n * target by {
        assert(0 <= k * target <= n * target) by (nonlinear_arith)
            requires 0 <= k <= n, target > 0;
    }
    assert forall|k: int| 0 <= k < n implies (#[trigger] ((k + 1) * target)) == k * target + target by {
        assert((k + 1) * target == k * target + target) by (nonlinear_arith);
    }
    assert((duration as int) % (target as int) == duration - n * target) by (nonlinear_arith)
        requires n == duration as int / target as int, target > 0, duration > 0;
    assert forall|i: int| 0 <= i < r.len() - 1 implies (#[trigger] r[i]).1 == r[i + 1].0 by {
        assert(0 <= i + 1 <= n);
        assert((i + 1) * target == i * target + target);
    }
    assert forall|i: int| 0 <= i < r.len() implies 0 < (#[trigger] r[i]).1 - r[i].0 <= target by {
        if i < n {
            assert((i + 1) * target == i * target + target);
            assert(0 <= i + 1 <= n);
        }
    }
    if n > 0 {
        assert(0 * target == 0) by (nonlinear_arith);
        assert((n - 1 + 1) * target == n * target);
        assert(0 <= n - 1 <= n);
    }
}


// ---------------------------------------------------------------------
// Names of output files
// ---------------------------------------------------------------------

/// The stem of a file name, as `Path::file_stem` gives it for a name without
/// `/`: none for `""`, `"."` and `".."`; the whole name when it has no `.` or
/// its only `.` is the first character; else the part before the last `.`.
pub open spec fn name_stem(name: Seq<char>) -> Option<Seq<char>> {
    if name.len() == 0 || name == seq!['.'] || name == seq!['.', '.'] {
        None
    } else {
        match last_index(name, '.') {
            Some(i) => if i == 0 { Some(name) } else { Some(name.take(i)) },
            None => Some(name),
        }
    }
}

/// The stem of the file name `name`, or `fallback` when it has none.
pub fn stem_or(name: &str, fallback: &str) -> (r: String)
    ensures
        r@ == match name_stem(name@) {
            Some(s) => s,
            None => fallback@,
        },
{
    let v = chars_of(name);
    if v.len() == 0 || (v.len() == 1 && v[0] == '.') || (v.len() == 2 && v[0] == '.' && v[1] == '.') {
        proof {
            if v@.len() == 1 {
                assert(v@ == seq!['.']);
            }
            if v@.len() == 2 {
                assert(v@ == seq!['.', '.']);
            }
        }
        return String::from_str(fallback);
    }
    proof {
        if v@ == seq!['.'] {
            assert(v@.len() == 1);
        }
        if v@ == seq!['.', '.'] {
            assert(v@.len() == 2 && v@[0] == '.' && v@[1] == '.');
        }
    }
    match rfind_char(v.as_slice(), '.') {
        Some(i) => {
            if i == 0 {
                string_of(v.as_slice())
            } else {
                let t = sub_vec(v.as_slice(), 0, i);
                assert(v@.subrange(0, i as int) == v@.take(i as int));
                string_of(t.as_slice())
            }
        },
        None => string_of(v.as_slice()),
    }
}

/// The name of the `number`-th segment file (counting from 1), three digits
/// at least: `seg_NNN.mp4` in a per-video folder, else `<stem>_seg_NNN.mp4`.
pub open spec fn segment_file_name(stem: Seq<char>, number: nat, group_by_video: bool) -> Seq<char> {
    if group_by_video {
        "seg_"@ + zero_padded(number, 3) + ".mp4"@
    } else {
        stem + "_seg_"@ + zero_padded(number, 3) + ".mp4"@
    }
}

proof fn lemma_decimal_short(n: nat)
    ensures
        n < 10 <==> decimal(n).len() == 1,
        decimal(n)[0] == '0' ==> n == 0,
    decreases n,
{
    crate::text::lemma_decimal_digits(n);
    if n >= 10 {
        lemma_decimal_short(n / 10);
        crate::text::lemma_decimal_digits(n / 10);
        assert(decimal(n)[0] == decimal(n / 10)[0]);
    }
}

proof fn lemma_zero_padded_injective(a: nat, b: nat, w: nat)
    requires
        zero_padded(a, w) == zero_padded(b, w),
    ensures
        a == b,
{
    let da = decimal(a);
    let db = decimal(b);
    let pa = zero_padded(a, w);
    let pb = zero_padded(b, w);
    crate::text::lemma_decimal_digits(a);
    crate::text::lemma_decimal_digits(b);
    let l = pa.len();
    assert(pa.skip(l - da.len()) =~= da);
    assert(pb.skip(l - db.len()) =~= db);
    assert(forall|k: int| 0 <= k < l - da.len() ==> pa[k] == '0');
    assert(forall|k: int| 0 <= k < l - db.len() ==> pb[k] == '0');
    if da.len() == db.len() {
        crate::text::lemma_decimal_injective(a, b);
    } else if da.len() < db.len() {
        lemma_decimal_short(b);
        assert(pb[l - db.len()] == db[0]);
        assert(pa[l - db.len()] == '0');
    } else {
        lemma_decimal_short(a);
        assert(pa[l - da.len()] == da[0]);
        assert(pb[l - da.len()] == '0');
    }
}

/// Each segment of a video goes to a file of its own: segments with
/// different numbers get different paths.
pub proof fn lemma_segment_paths_distinct(out_dir: Seq<char>, stem: Seq<char>, group_by_video: bool, i: nat, j: nat)
    requires
        i != j,
    ensures
        joined(out_dir, segment_file_name(stem, i, group_by_video))
            != joined(out_dir, segment_file_name(stem, j, group_by_video)),
{
    let fi = segment_file_name(stem, i, group_by_video);
    let fj = segment_file_name(stem, j, group_by_video);
    let zi = zero_padded(i, 3);
    let zj = zero_padded(j, 3);
    let pre = if group_by_video { "seg_"@ } else { stem + "_seg_"@ };
    assert(fi =~= pre + zi + ".mp4"@);
    assert(fj =~= pre + zj + ".mp4"@);
    if joined(out_dir, fi) == joined(out_dir, fj) {
        reveal_strlit("seg_");
        reveal_strlit("_seg_");
        reveal_strlit(".mp4");
        assert(pre.len() > 0);
        assert(fi[0] == pre[0] && fj[0] == pre[0]);
        let gap: int = if pre[0] == '/' { 0int } else if out_dir.len() == 0 || out_dir.last() == '/' { out_dir.len() as int } else { out_dir.len() as int + 1 };
        assert(joined(out_dir, fi).skip(gap) =~= fi);
        assert(joined(out_dir, fj).skip(gap) =~= fj);
        assert(fi == fj);
        assert(zi.len() == zj.len());
        assert(fi.subrange(pre.len() as int, (pre.len() + zi.len()) as int) =~= zi);
        assert(fj.subrange(pre.len() as int, (pre.len() + zj.len()) as int) =~= zj);
        lemma_zero_padded_injective(i, j, 3);
    }
}

/// The folder segments of a video go to: a folder named after its stem inside
/// the output folder, or the output folder itself.
pub open spec fn segment_dir(output_folder: Seq<char>, stem: Seq<char>, group_by_video: bool) -> Seq<char> {
    if group_by_video {
        joined(output_folder, stem)
    } else {
        output_folder
    }
}

/// The folder segments of a video go to (see `segment_dir`).
pub fn output_dir(output_folder: &str, stem: &str, group_by_video: bool) -> (r: String)
    ensures
        r@ == segment_dir(output_folder@, stem@, group_by_video),
{
    if group_by_video {
        join_path(output_folder, stem)
    } else {
        String::from_str(output_folder)
    }
}

/// The path of the segment at `index` (counting from 0) of a video with stem
/// `stem`, inside the folder `out_dir`.
pub fn segment_output_path(out_dir: &str, stem: &str, index: usize, group_by_video: bool) -> (r: String)
    requires
        index < usize::MAX,
    ensures
        r@ == joined(out_dir@, segment_file_name(stem@, (index + 1) as nat, group_by_video)),
{
    let mut name: Vec<char> = Vec::new();
    if !group_by_video {
        push_str(&mut name, stem);
        push_str(&mut name, "_seg_");
    } else {
        push_str(&mut name, "seg_");
    }
    push_zero_padded(&mut name, (index + 1) as u128, 3);
    push_str(&mut name, ".mp4");
    let file = string_of(name.as_slice());
    join_path(out_dir, file.as_str())
}

// ---------------------------------------------------------------------
// Cache of remuxed sources
// ---------------------------------------------------------------------

/// The lower-case hexadecimal digit for `d` (`d < 16`).
pub open spec fn hex_char(d: int) -> char {
    if d < 10 { digit_char(d) } else { (87 + d) as char }
}

/// The lower-case hexadecimal representation of `n` (as `{:x}` writes it).
pub open spec fn hex(n: nat) -> Seq<char>
    decreases n,
{
    if n < 16 {
        seq![hex_char(n as int)]
    } else {
        hex(n / 16).push(hex_char((n % 16) as int))
    }
}

fn push_hex(out: &mut Vec<char>, n: u64)
    ensures
        final(out)@ == old(out)@ + hex(n as nat),
    decreases n,
{
    if n >= 16 {
        push_hex(out, n / 16);
    }
    let d = (n % 16) as u8;
    let c = if d < 10 { digit_to_char(d) } else { (87u8 + d) as char };
    out.push(c);
    proof {
        if n >= 16 {
            assert(hex(n as nat) == hex((n / 16) as nat).push(hex_char((n % 16) as int)));
        }
    }
}

/// The key of a source path in the remux cache: the standard library's
/// `DefaultHasher`, fed the bytes of `s` followed by `0xff` (the bytes that
/// hashing a `str` feeds it).
pub fn md5_like_hash(s: &str) -> (r: u64)
    ensures
        r == DefaultHasher::spec_finish(seq![s.spec_bytes(), seq![0xffu8]]),
{
    let mut h = DefaultHasher::new();
    h.write(s.as_bytes());
    let end: [u8; 1] = [0xff];
    h.write(&end);
    proof {
        assert(end@ == seq![0xffu8]);
        assert(h@ == seq![s.spec_bytes(), seq![0xffu8]]);
    }
    h.finish()
}

/// The file name of a remuxed copy: `<key in hex>_<modification time>.mp4`.
pub open spec fn remux_name(key: nat, mtime: nat) -> Seq<char> {
    hex(key) + seq!['_'] + decimal(mtime) + ".mp4"@
}

/// The file name of the remuxed copy of a source (see `remux_name`).
pub fn remux_file_name(key: u64, mtime: u64) -> (r: String)
    ensures
        r@ == remux_name(key as nat, mtime as nat),
{
    let mut out: Vec<char> = Vec::new();
    push_hex(&mut out, key);
    out.push('_');
    push_decimal(&mut out, mtime as u128);
    push_str(&mut out, ".mp4");
    string_of(out.as_slice())
}

/// The folder of the remux cache: `<home>/.cola-cutter-cache/remux`, or
/// `/tmp/cola-cutter-cache/remux` when the home folder is unknown.
pub fn remux_cache_dir(home: Option<String>) -> (r: String)
    ensures
        r@ == match home {
            Some(h) => h@ + "/.cola-cutter-cache/remux"@,
            None => "/tmp/cola-cutter-cache/remux"@,
        },
{
    match home {
        Some(h) => {
            let mut out = chars_of(h.as_str());
            push_str(&mut out, "/.cola-cutter-cache/remux");
            string_of(out.as_slice())
        },
        None => String::from_str("/tmp/cola-cutter-cache/remux"),
    }
}


// ---------------------------------------------------------------------
// Videos, segments and results
// ---------------------------------------------------------------------

/// A video found in the input folder; its duration in ms, when it could be read.
#[derive(Debug)]
pub struct VideoFile {
    pub path: String,
    pub name: String,
    pub size: u64,
    pub duration: Option<i64>,
}

/// A segment written to disk: where, from which source, which part of it.
#[derive(Debug)]
pub struct CutSegment {
    pub output_path: String,
    pub source: String,
    pub src_start: i64,
    pub src_end: i64,
    pub duration: i64,
    pub reason: Option<String>,
}

/// The outcome for one source video.
#[derive(Debug)]
pub struct CutResult {
    pub source_name: String,
    pub segments: Vec<CutSegment>,
    pub error: Option<String>,
}

impl CutResult {
    /// The outcome of a video that could not be cut.
    pub fn failed(source_name: String, error: String) -> (r: CutResult)
        ensures
            r.source_name == source_name,
            r.segments@.len() == 0,
            r.error == Some(error),
    {
        CutResult { source_name, segments: Vec::new(), error: Some(error) }
    }
}

/// The file extensions taken for videos.
pub open spec fn video_exts() -> Seq<Seq<char>> {
    seq!["mp4"@, "mov"@, "mkv"@, "avi"@, "webm"@, "flv"@, "m4v"@]
}

/// The extension of a file name, as `Path::extension` gives it: what follows
/// the last `.`, when that `.` is not the first character (none for `..`).
pub open spec fn extension(name: Seq<char>) -> Option<Seq<char>> {
    if name == seq!['.', '.'] {
        None
    } else {
        match last_index(name, '.') {
            Some(i) => if i == 0 { None } else { Some(name.skip(i + 1)) },
            None => None,
        }
    }
}

/// The lower case of a character as far as it can turn into an ASCII letter:
/// `A`-`Z`, and the Kelvin sign (U+212A), whose lower case is `k`.
pub open spec fn lower(c: char) -> char {
    if 'A' <= c <= 'Z' {
        ((c as u32) + 32) as char
    } else if c == '\u{212A}' {
        'k'
    } else {
        c
    }
}

/// `ext` in lower case (`str::to_lowercase`) equals the lower-case ASCII `target`.
pub open spec fn lower_equals(ext: Seq<char>, target: Seq<char>) -> bool {
    ext.len() == target.len() && forall|i: int| 0 <= i < ext.len() ==> lower(#[trigger] ext[i]) == target[i]
}

/// A file of this name is taken as a video: it is not hidden (`.name`, and
/// the `._name` shadow files of macOS; names starting with `..` do count) and
/// its extension, in lower case, is a video extension.
pub open spec fn is_video_name(name: Seq<char>) -> bool {
    let hidden = occurs_at(name, "._"@, 0) || (occurs_at(name, "."@, 0) && !occurs_at(name, ".."@, 0));
    !hidden && match extension(name) {
        Some(e) => exists|k: int| 0 <= k < video_exts().len() && lower_equals(e, #[trigger] video_exts()[k]),
        None => false,
    }
}

/// The seven video extensions, written out.
pub open spec fn is_listed_video_ext(e: Seq<char>) -> bool {
    ||| lower_equals(e, "mp4"@)
    ||| lower_equals(e, "mov"@)
    ||| lower_equals(e, "mkv"@)
    ||| lower_equals(e, "avi"@)
    ||| lower_equals(e, "webm"@)
    ||| lower_equals(e, "flv"@)
    ||| lower_equals(e, "m4v"@)
}

/// A name is taken as a video exactly when it is not hidden (no leading `._`,
/// no leading `.` unless it starts with `..`) and its extension, in lower
/// case, is one of mp4, mov, mkv, avi, webm, flv and m4v.
pub proof fn lemma_video_names(name: Seq<char>)
    ensures
        is_video_name(name) <==> (
            !(occurs_at(name, "._"@, 0) || (occurs_at(name, "."@, 0) && !occurs_at(name, ".."@, 0)))
            && match extension(name) {
                Some(e) => is_listed_video_ext(e),
                None => false,
            }
        ),
{
    let v = video_exts();
    assert(v[0] == "mp4"@);
    assert(v[1] == "mov"@);
    assert(v[2] == "mkv"@);
    assert(v[3] == "avi"@);
    assert(v[4] == "webm"@);
    assert(v[5] == "flv"@);
    assert(v[6] == "m4v"@);
    if let Some(e) = extension(name) {
        if is_listed_video_ext(e) {
            if lower_equals(e, "mp4"@) { assert(lower_equals(e, v[0])); }
            if lower_equals(e, "mov"@) { assert(lower_equals(e, v[1])); }
            if lower_equals(e, "mkv"@) { assert(lower_equals(e, v[2])); }
            if lower_equals(e, "avi"@) { assert(lower_equals(e, v[3])); }
            if lower_equals(e, "webm"@) { assert(lower_equals(e, v[4])); }
            if lower_equals(e, "flv"@) { assert(lower_equals(e, v[5])); }
            if lower_equals(e, "m4v"@) { assert(lower_equals(e, v[6])); }
        }
    }
}

fn lower_char(c: char) -> (r: char)
    ensures
        r == lower(c),
{
    if 'A' <= c && c <= 'Z' {
        ((c as u32 + 32) as u8) as char
    } else if c == '\u{212A}' {
        'k'
    } else {
        c
    }
}

fn lower_eq(ext: &[char], target: &[char]) -> (r: bool)
    ensures
        r == lower_equals(ext@, target@),
{
    if ext.len() != target.len() {
        return false;
    }
    let mut i: usize = 0;
    while i < ext.len()
        invariant
            i <= ext@.len(),
            ext@.len() == target@.len(),
            forall|k: int| 0 <= k < i ==> lower(#[trigger] ext@[k]) == target@[k],
        decreases ext@.len() - i,
    {
        if lower_char(ext[i]) != target[i] {
            return false;
        }
        i = i + 1;
    }
    true
}

/// Whether a file of this name is taken as a video (see `is_video_name`).
pub fn is_video_file_name(name: &str) -> (r: bool)
    ensures
        r == is_video_name(name@),
        r <==> (
            !(occurs_at(name@, "._"@, 0) || (occurs_at(name@, "."@, 0) && !occurs_at(name@, ".."@, 0)))
            && match extension(name@) {
                Some(e) => is_listed_video_ext(e),
                None => false,
            }
        ),
{
    proof {
        lemma_video_names(name@);
    }
    proof {
        reveal_strlit("._");
        reveal_strlit(".");
        reveal_strlit("..");
    }
    let v = chars_of(name);
    let shadow = chars_of("._");
    let dot = chars_of(".");
    let dots = chars_of("..");
    if starts_with(v.as_slice(), shadow.as_slice()) || (starts_with(v.as_slice(), dot.as_slice()) && !starts_with(v.as_slice(), dots.as_slice())) {
        return false;
    }
    if v.len() == 2 && v[0] == '.' && v[1] == '.' {
        assert(v@ == seq!['.', '.']);
        return false;
    }
    assert(v@ != seq!['.', '.']);
    let i = match rfind_char(v.as_slice(), '.') {
        None => return false,
        Some(i) => i,
    };
    if i == 0 {
        return false;
    }
    let ext = sub_vec(v.as_slice(), i + 1, v.len());
    assert(ext@ == v@.skip(i + 1));
    let mut exts: Vec<Vec<char>> = Vec::new();
    exts.push(chars_of("mp4"));
    exts.push(chars_of("mov"));
    exts.push(chars_of("mkv"));
    exts.push(chars_of("avi"));
    exts.push(chars_of("webm"));
    exts.push(chars_of("flv"));
    exts.push(chars_of("m4v"));
    assert(views(exts@) =~= video_exts());
    assert(extension(name@) == Some(ext@));
    let ghost found = exists|j: int| 0 <= j < video_exts().len() && lower_equals(ext@, #[trigger] video_exts()[j]);
    assert(is_video_name(name@) == found);
    let mut k: usize = 0;
    while k < exts.len()
        invariant
            k <= exts@.len(),
            is_video_name(name@) == found,
            found == exists|j: int| 0 <= j < video_exts().len() && lower_equals(ext@, #[trigger] video_exts()[j]),
            views(exts@) == video_exts(),
            forall|j: int| 0 <= j < k ==> !lower_equals(ext@, #[trigger] video_exts()[j]),
        decreases exts@.len() - k,
    {
        assert(views(exts@)[k as int] == exts@[k as int]@);
        if lower_eq(ext.as_slice(), exts[k].as_slice()) {
            assert(lower_equals(ext@, video_exts()[k as int]));
            return true;
        }
        k = k + 1;
    }
    false
}

// ---------------------------------------------------------------------
// Frames
// ---------------------------------------------------------------------

/// The number in a frame file name `f_<number>.jpg`, read as `u32`.
pub open spec fn frame_number_of(name: Seq<char>) -> Option<u32> {
    if occurs_at(name, "f_"@, 0) {
        let a = name.skip(2);
        if a.len() >= 4 && occurs_at(a, ".jpg"@, a.len() - 4) {
            u32_text_value(a.take(a.len() - 4))
        } else {
            None
        }
    } else {
        None
    }
}

/// The name under which `ffmpeg` writes frame `n` with the output pattern
/// `f_%04d.jpg`: the number padded with zeros to four digits.
pub open spec fn frame_file_name(n: nat) -> Seq<char> {
    "f_"@ + zero_padded(n, 4) + ".jpg"@
}

/// The output pattern frames are extracted with (see `frame_file_name`).
pub fn frame_pattern() -> (r: &'static str)
    ensures
        r@ == "f_%04d.jpg"@,
{
    "f_%04d.jpg"
}

proof fn lemma_digits_value_decimal(n: nat)
    ensures
        all_digits(decimal(n)),
        digits_value(decimal(n)) == n,
    decreases n,
{
    crate::text::lemma_decimal_digits(n);
    let d = (n % 10) as int;
    assert(digit_char(d) as int == 48 + d);
    if n >= 10 {
        lemma_digits_value_decimal(n / 10);
        assert(decimal(n).drop_last() == decimal(n / 10));
        assert(decimal(n).last() == digit_char(d));
        assert(crate::text::digit_value(digit_char(d)) == d);
        assert(digits_value(decimal(n)) == (digits_value(decimal(n / 10)) * 10 + d) as nat);
        assert((n / 10) * 10 + d == n);
    } else {
        assert(decimal(n).drop_last() =~= Seq::<char>::empty());
        assert(decimal(n).last() == digit_char(n as int));
        assert(crate::text::digit_value(digit_char(n as int)) == n);
        assert(digits_value(Seq::<char>::empty()) == 0);
        assert(digits_value(decimal(n)) == (digits_value(decimal(n).drop_last()) * 10
            + crate::text::digit_value(decimal(n).last())) as nat);
    }
}

proof fn lemma_digits_value_zeros(k: nat, s: Seq<char>)
    ensures
        digits_value(Seq::new(k, |i: int| '0') + s) == digits_value(s),
    decreases s.len(), k,
{
    let z = Seq::new(k, |i: int| '0');
    if s.len() > 0 {
        assert((z + s).drop_last() =~= z + s.drop_last());
        lemma_digits_value_zeros(k, s.drop_last());
    } else if k > 0 {
        assert(z + s =~= z);
        assert(z.drop_last() =~= Seq::new((k - 1) as nat, |i: int| '0'));
        lemma_digits_value_zeros((k - 1) as nat, s);
        assert(Seq::new((k - 1) as nat, |i: int| '0') + s =~= Seq::new((k - 1) as nat, |i: int| '0'));
    } else {
        assert(z + s =~= Seq::<char>::empty());
    }
}

/// The frames `ffmpeg` writes are read back with their numbers: the name of
/// frame `n` gives `n`.
pub proof fn lemma_frame_names_read_back(n: u32)
    ensures
        frame_number_of(frame_file_name(n as nat)) == Some(n),
{
    reveal_strlit("f_");
    reveal_strlit(".jpg");
    let d = decimal(n as nat);
    let zp = zero_padded(n as nat, 4);
    lemma_digits_value_decimal(n as nat);
    crate::text::lemma_decimal_digits(n as nat);
    if d.len() < 4 {
        lemma_digits_value_zeros((4 - d.len()) as nat, d);
        assert(all_digits(zp)) by {
            assert forall|i: int| 0 <= i < zp.len() implies crate::text::is_digit(#[trigger] zp[i]) by {
                if i >= 4 - d.len() {
                    assert(zp[i] == d[i - (4 - d.len())]);
                }
            }
        }
    }
    assert(digits_value(zp) == n);
    let name = frame_file_name(n as nat);
    let a = name.skip(2);
    assert(name.subrange(0, 2) =~= "f_"@);
    assert(a =~= zp + ".jpg"@);
    assert(a.subrange(a.len() - 4, a.len() as int) =~= ".jpg"@);
    assert(a.take(a.len() - 4) =~= zp);
    assert(zp[0] != '+');
}

/// The number in a frame file name (see `frame_number_of`).
pub fn frame_number(name: &str) -> (r: Option<u32>)
    ensures
        r == frame_number_of(name@),
{
    proof {
        reveal_strlit("f_");
        reveal_strlit(".jpg");
    }
    let v = chars_of(name);
    let pre = chars_of("f_");
    let suf = chars_of(".jpg");
    if !starts_with(v.as_slice(), pre.as_slice()) {
        return None;
    }
    let a = sub_vec(v.as_slice(), 2, v.len());
    assert(a@ == v@.skip(2));
    if !ends_with(a.as_slice(), suf.as_slice()) {
        return None;
    }
    let body = sub_vec(a.as_slice(), 0, a.len() - 4);
    assert(body@ == a@.take(a@.len() - 4));
    parse_u32(body.as_slice())
}

/// The frame rate used for extraction: the configured one (thousandths of a
/// frame per second), or 1 frame per second when it is not positive.
pub open spec fn effective_fps_of(fps: i64) -> i64 {
    if fps > 0 { fps } else { 1000 }
}

/// The frame rate used for extraction (see `effective_fps_of`).
pub fn effective_fps(fps: i64) -> (r: i64)
    ensures
        r == effective_fps_of(fps),
{
    if fps > 0 { fps } else { 1000 }
}

/// The window length used for analysis: the configured one, or 120 s when it
/// is not positive.
pub fn effective_chunk_ms(chunk: i64) -> (r: i64)
    ensures
        r == if chunk > 0 { chunk } else { 120000 },
{
    if chunk > 0 { chunk } else { 120000 }
}

/// The time (ms) of frame `n` (counting from 1) extracted at `fps` thousandths
/// of a frame per second from a window starting at `start`: `(n - 1) / fps`
/// seconds after the start, truncated to whole ms and held within `i64`.
pub open spec fn frame_time_of(start: i64, n: u32, fps: i64) -> i64 {
    let off: int = if n == 0 { -(1000000int / (fps as int)) } else { ((n - 1) as int) * 1000000int / (fps as int) };
    crate::probe::clamp_i64(start + off)
}

/// The time of an extracted frame (see `frame_time_of`).
pub fn frame_time(start: i64, n: u32, fps: i64) -> (r: i64)
    requires
        fps > 0,
    ensures
        r == frame_time_of(start, n, fps),
{
    let f = fps as i128;
    let off: i128 = if n == 0 { -(1000000i128 / f) } else { ((n - 1) as i128 * 1000000) / f };
    proof {
        if n > 0 {
            assert(0 <= (n - 1) * 1000000 <= 4294967295 * 1000000) by (nonlinear_arith)
                requires 0 <= n - 1 <= 4294967295;
        }
    }
    let t: i128 = start as i128 + off;
    if t > i64::MAX as i128 { i64::MAX } else if t < i64::MIN as i128 { i64::MIN } else { t as i64 }
}

/// A frame file and its time.
#[derive(Debug)]
pub struct FrameFile {
    pub t: i64,
    pub path: String,
}

/// The times of a sequence of frame files.
pub open spec fn frame_times(v: Seq<FrameFile>) -> Seq<i64> {
    v.map_values(|f: FrameFile| f.t)
}

/// Sorts frame files by time, stably.
pub fn sort_frames(v: Vec<FrameFile>) -> (r: Vec<FrameFile>)
    ensures
        exists|p: Seq<usize>| #[trigger] is_stable_order(frame_times(v@), p) && r@.len() == p.len()
            && forall|k: int| 0 <= k < p.len() ==> (#[trigger] r@[k]).t == v@[p[k] as int].t && r@[k].path@ == v@[p[k] as int].path@,
        forall|i: int, j: int| 0 <= i < j < r@.len() ==> (#[trigger] r@[i]).t <= (#[trigger] r@[j]).t,
{
    let mut keys: Vec<i64> = Vec::new();
    let mut i: usize = 0;
    while i < v.len()
        invariant
            i <= v@.len(),
            keys@ == frame_times(v@).take(i as int),
        decreases v@.len() - i,
    {
        keys.push(v[i].t);
        i = i + 1;
        assert(keys@ == frame_times(v@).take(i as int));
    }
    assert(keys@ == frame_times(v@));
    let p = stable_order(&keys);
    let mut r: Vec<FrameFile> = Vec::new();
    let mut k: usize = 0;
    while k < p.len()
        invariant
            k <= p@.len(),
            is_stable_order(keys@, p@),
            keys@.len() == v@.len(),
            r@.len() == k,
            forall|j: int| 0 <= j < k ==> (#[trigger] r@[j]).t == v@[p@[j] as int].t && r@[j].path@ == v@[p@[j] as int].path@,
        decreases p@.len() - k,
    {
        let j = p[k];
        assert(p@[k as int] < keys@.len());
        r.push(FrameFile { t: v[j].t, path: v[j].path.clone() });
        k = k + 1;
    }
    proof {
        assert forall|i: int, j: int| 0 <= i < j < r@.len() implies (#[trigger] r@[i]).t <= (#[trigger] r@[j]).t by {
            assert(keys@[p@[i] as int] == v@[p@[i] as int].t);
            assert(keys@[p@[j] as int] == v@[p@[j] as int].t);
        }
    }
    r
}

/// `ms` written as seconds with three decimals, as `ffmpeg` time arguments
/// are given.
pub fn seconds_arg(ms: i64) -> (r: String)
    ensures
        r@ == fixed(ms as int, 3),
{
    let mut out: Vec<char> = Vec::new();
    push_fixed(&mut out, ms as i128, 3);
    string_of(out.as_slice())
}

/// The `ffmpeg` filter that extracts frames: `fps=<rate>,scale=<size>:-2:flags=lanczos`.
pub fn frame_filter(fps: i64, frame_max_size: u32) -> (r: String)
    ensures
        r@ == "fps="@ + shortest(fps as int) + ",scale="@ + decimal(frame_max_size as nat) + ":-2:flags=lanczos"@,
{
    let mut out: Vec<char> = Vec::new();
    push_str(&mut out, "fps=");
    push_shortest(&mut out, fps as i128);
    push_str(&mut out, ",scale=");
    push_decimal(&mut out, frame_max_size as u128);
    push_str(&mut out, ":-2:flags=lanczos");
    string_of(out.as_slice())
}

/// The scratch folder of this process's frames: `cola_cut_<process id>`.
pub fn work_dir_name(pid: u32) -> (r: String)
    ensures
        r@ == "cola_cut_"@ + decimal(pid as nat),
{
    let mut out: Vec<char> = Vec::new();
    push_str(&mut out, "cola_cut_");
    push_decimal(&mut out, pid as u128);
    string_of(out.as_slice())
}

/// The folder of the frames of window `chunk` (from 0) of a video: `frames_<stem>_chunk<chunk>`.
pub fn frames_dir_name(stem: &str, chunk: usize) -> (r: String)
    ensures
        r@ == "frames_"@ + stem@ + "_chunk"@ + decimal(chunk as nat),
{
    let mut out: Vec<char> = Vec::new();
    push_str(&mut out, "frames_");
    push_str(&mut out, stem);
    push_str(&mut out, "_chunk");
    push_decimal(&mut out, chunk as u128);
    string_of(out.as_slice())
}

// ---------------------------------------------------------------------
// Messages of the AI mode
// ---------------------------------------------------------------------

/// `prefix` + number + `suffix` as a string.
fn numbered(prefix: &str, n: u128, suffix: &str) -> (r: String)
    ensures
        r@ == prefix@ + decimal(n as nat) + suffix@,
{
    let mut out: Vec<char> = Vec::new();
    push_str(&mut out, prefix);
    push_decimal(&mut out, n);
    push_str(&mut out, suffix);
    string_of(out.as_slice())
}

/// The error of a video whose duration could not be read.
pub fn probe_failed(error: &str) -> (r: String)
    ensures
        r@ == "探测时长失败: "@ + error@,
{
    let mut out = chars_of("探测时长失败: ");
    push_str(&mut out, error);
    string_of(out.as_slice())
}

// ---------------------------------------------------------------------
// Used videos
// ---------------------------------------------------------------------

/// What to do with the videos that were cut.
#[derive(Debug)]
pub enum UsedAction {
    /// Nothing (action `none`, or no videos).
    Skip,
    /// Move them into the `used` folder of the input folder.
    Move,
    /// Delete them.
    Delete,
    /// An action that is not known.
    Unknown,
}

/// The action asked for by `action` on `count` videos.
pub open spec fn used_action_of(action: Seq<char>, count: nat) -> UsedAction {
    if action == "none"@ || count == 0 {
        UsedAction::Skip
    } else if action == "move"@ {
        UsedAction::Move
    } else if action == "delete"@ {
        UsedAction::Delete
    } else {
        UsedAction::Unknown
    }
}

/// The action asked for (see `used_action_of`).
pub fn used_action(action: &str, count: usize) -> (r: UsedAction)
    ensures
        r == used_action_of(action@, count as nat),
{
    if same_text(action, "none") || count == 0 {
        UsedAction::Skip
    } else if same_text(action, "move") {
        UsedAction::Move
    } else if same_text(action, "delete") {
        UsedAction::Delete
    } else {
        UsedAction::Unknown
    }
}

/// The folder used videos are moved into: `used` inside the input folder.
pub fn used_folder(input_folder: &str) -> (r: String)
    ensures
        r@ == joined(input_folder@, "used"@),
{
    join_path(input_folder, "used")
}

/// The report after deleting `count` videos: `deleted <count>`.
pub fn deleted_message(count: usize) -> (r: String)
    ensures
        r@ == "deleted "@ + decimal(count as nat),
{
    proof {
        reveal_strlit("");
    }
    let r = numbered("deleted ", count as u128, "");
    assert(r@ == "deleted "@ + decimal(count as nat) + ""@);
    assert("deleted "@ + decimal(count as nat) + ""@ =~= "deleted "@ + decimal(count as nat));
    r
}

/// The report after moving `count` videos into the folder shown as `folder`
/// (the folder as `Debug` shows a path, quoted): `moved <count> to <folder>`.
pub fn moved_message(count: usize, folder: &str) -> (r: String)
    ensures
        r@ == "moved "@ + decimal(count as nat) + " to "@ + folder@,
{
    let mut out: Vec<char> = Vec::new();
    push_str(&mut out, "moved ");
    push_decimal(&mut out, count as u128);
    push_str(&mut out, " to ");
    push_str(&mut out, folder);
    string_of(out.as_slice())
}

/// The error for an unknown action.
pub fn unknown_action_message(action: &str) -> (r: String)
    ensures
        r@ == "未知的 action: "@ + action@,
{
    let mut out = chars_of("未知的 action: ");
    push_str(&mut out, action);
    string_of(out.as_slice())
}

} // verus!
