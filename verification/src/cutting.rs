//! Cutting segments: which segments a video ends up with, given how each cut
//! went, and the names, limits and messages of a single cut.
use vstd::prelude::*;
use crate::text::{chars_of, push_str, push_decimal, decimal, string_of};
use crate::config::joined;
use crate::plan::{CutSegment, segment_file_name, segment_output_path};
use crate::vision::{CutShot, ShotView, shot_views, opt_view, copy_opt};
use crate::seconds::{fixed, push_fixed};

verus! {

/// What a `CutSegment` holds.
pub struct SegmentView {
    pub output_path: Seq<char>,
    pub source: Seq<char>,
    pub src_start: i64,
    pub src_end: i64,
    pub duration: i64,
    pub reason: Option<Seq<char>>,
}

impl View for CutSegment {
    type V = SegmentView;

    open spec fn view(&self) -> SegmentView {
        SegmentView {
            output_path: self.output_path@,
            source: self.source@,
            src_start: self.src_start,
            src_end: self.src_end,
            duration: self.duration,
            reason: opt_view(self.reason),
        }
    }
}

/// The views of a list of segments.
pub open spec fn segment_views(v: Seq<CutSegment>) -> Seq<SegmentView> {
    v.map_values(|s: CutSegment| s@)
}

/// How the cut of shot `i` went: `Some(duration)` when it succeeded; a shot
/// with no recorded outcome counts as failed.
pub open spec fn outcome_at(outcomes: Seq<Option<i64>>, i: int) -> Option<i64> {
    if 0 <= i < outcomes.len() { outcomes[i] } else { None }
}

/// The segments a video ends up with: one for each shot whose cut succeeded,
/// in shot order, written to `<out_dir>/<file name of shot number i + 1>`,
/// with the source's name, the shot's times and reason, and the duration the
/// cut reported.
pub open spec fn kept_segments(
    out_dir: Seq<char>,
    stem: Seq<char>,
    group_by_video: bool,
    video_name: Seq<char>,
    shots: Seq<ShotView>,
    outcomes: Seq<Option<i64>>,
) -> Seq<SegmentView>
    decreases shots.len(),
{
    if shots.len() == 0 {
        seq![]
    } else {
        let i = shots.len() - 1;
        let rest = kept_segments(out_dir, stem, group_by_video, video_name, shots.drop_last(), outcomes);
        match outcome_at(outcomes, i) {
            Some(d) => rest.push(SegmentView {
                output_path: joined(out_dir, segment_file_name(stem, (i + 1) as nat, group_by_video)),
                source: video_name,
                src_start: shots[i].start,
                src_end: shots[i].end,
                duration: d,
                reason: shots[i].reason,
            }),
            None => rest,
        }
    }
}

/// The segments a video ends up with, from its shots and how each cut went
/// (see `kept_segments`).
pub fn collect_segments(
    out_dir: &str,
    stem: &str,
    group_by_video: bool,
    video_name: &str,
    shots: &Vec<CutShot>,
    outcomes: &Vec<Option<i64>>,
) -> (r: Vec<CutSegment>)
    ensures
        segment_views(r@) == kept_segments(out_dir@, stem@, group_by_video, video_name@, shot_views(shots@), outcomes@),
{
    let ghost sv = shot_views(shots@);
    let mut out: Vec<CutSegment> = Vec::new();
    let mut i: usize = 0;
    assert(sv.take(0) =~= Seq::<ShotView>::empty());
    while i < shots.len()
        invariant
            i <= shots@.len(),
            sv == shot_views(shots@),
            segment_views(out@) == kept_segments(out_dir@, stem@, group_by_video, video_name@, sv.take(i as int), outcomes@),
        decreases shots@.len() - i,
    {
        assert(sv.take(i + 1).drop_last() =~= sv.take(i as int));
        assert(sv.take(i + 1)[i as int] == shots@[i as int]@);
        let outcome: Option<i64> = if i < outcomes.len() { outcomes[i] } else { None };
        match outcome {
            Some(d) => {
                let path = segment_output_path(out_dir, stem, i, group_by_video);
                let seg = CutSegment {
                    output_path: path,
                    source: String::from_str(video_name),
                    src_start: shots[i].start,
                    src_end: shots[i].end,
                    duration: d,
                    reason: copy_opt(&shots[i].reason),
                };
                let ghost before = out@;
                out.push(seg);
                assert(segment_views(out@) =~= segment_views(before).push(seg@));
            },
            None => {},
        }
        i = i + 1;
    }
    assert(sv.take(i as int) =~= sv);
    out
}

// ---------------------------------------------------------------------
// One cut
// ---------------------------------------------------------------------

/// The scratch file a cut is first written to:
/// `cola_seg_<process id>_<nanoseconds since the epoch>.mp4`.
pub fn scratch_name(pid: u32, nanos: u128) -> (r: String)
    ensures
        r@ == "cola_seg_"@ + decimal(pid as nat) + "_"@ + decimal(nanos as nat) + ".mp4"@,
{
    let mut out = chars_of("cola_seg_");
    push_decimal(&mut out, pid as u128);
    push_str(&mut out, "_");
    push_decimal(&mut out, nanos);
    push_str(&mut out, ".mp4");
    string_of(out.as_slice())
}

/// How long a cut of `duration_ms` may run before it is stopped: the
/// segment's length and one minute more.
pub fn cut_timeout_ms(duration_ms: i64) -> (r: i64)
    requires
        -60000 <= duration_ms <= i64::MAX - 60000,
    ensures
        r == duration_ms + 60000,
{
    duration_ms + 60000
}

/// The error when a cut runs too long: `ffmpeg 超时（><seconds>s）被强杀`.
pub fn timeout_message(timeout_ms: i64) -> (r: String)
    ensures
        r@ == "ffmpeg 超时（>"@ + fixed(timeout_ms as int, 0) + "s）被强杀"@,
{
    let mut out = chars_of("ffmpeg 超时（>");
    push_fixed(&mut out, timeout_ms as i128, 0);
    push_str(&mut out, "s）被强杀");
    string_of(out.as_slice())
}

/// An exit code as `Option<i32>` is shown by `Debug`: `Some(<code>)` or `None`.
pub open spec fn exit_code_text(code: Option<i32>) -> Seq<char> {
    match code {
        Some(c) => "Some("@ + (if c < 0 { seq!['-'] + decimal((-c) as nat) } else { decimal(c as nat) }) + ")"@,
        None => "None"@,
    }
}

fn push_exit_code(out: &mut Vec<char>, code: Option<i32>)
    ensures
        final(out)@ == old(out)@ + exit_code_text(code),
{
    match code {
        Some(c) => {
            let ghost before = out@;
            push_str(out, "Some(");
            if c < 0 {
                out.push('-');
                push_decimal(out, (-(c as i64)) as u128);
            } else {
                push_decimal(out, c as u128);
            }
            push_str(out, ")");
            assert(out@ =~= before + exit_code_text(code));
        },
        None => push_str(out, "None"),
    }
}

/// The error when `ffmpeg` exits with a failure while cutting.
pub fn cut_exit_failed(code: Option<i32>) -> (r: String)
    ensures
        r@ == "ffmpeg 切段失败 (exit: "@ + exit_code_text(code) + ")"@,
{
    let mut out = chars_of("ffmpeg 切段失败 (exit: ");
    push_exit_code(&mut out, code);
    push_str(&mut out, ")");
    string_of(out.as_slice())
}

/// The error when remuxing exits with a failure: `remux exit=<code>`.
pub fn remux_exit_failed(code: Option<i32>) -> (r: String)
    ensures
        r@ == "remux exit="@ + exit_code_text(code),
{
    let mut out = chars_of("remux exit=");
    push_exit_code(&mut out, code);
    string_of(out.as_slice())
}

/// Output files smaller than this many bytes count as empty.
pub const MIN_OUTPUT_BYTES: u64 = 1024;

/// Whether an output of `size` bytes counts as empty.
pub fn output_empty(size: u64) -> (r: bool)
    ensures
        r == (size < 1024),
{
    size < MIN_OUTPUT_BYTES
}

/// The error when a cut wrote (next to) nothing:
/// `ffmpeg 切段输出 0 字节（src=<src> [<start>-<end>]）`, times in seconds with two decimals.
pub fn empty_cut_message(src: &str, start: i64, end: i64) -> (r: String)
    ensures
        r@ == "ffmpeg 切段输出 0 字节（src="@ + src@ + " ["@ + fixed(start as int, 2) + "-"@ + fixed(end as int, 2) + "]）"@,
{
    let mut out = chars_of("ffmpeg 切段输出 0 字节（src=");
    push_str(&mut out, src);
    push_str(&mut out, " [");
    push_fixed(&mut out, start as i128, 2);
    push_str(&mut out, "-");
    push_fixed(&mut out, end as i128, 2);
    push_str(&mut out, "]）");
    string_of(out.as_slice())
}

/// A remuxed copy in the cache is used when it exists and is not empty.
pub fn cache_usable(exists: bool, size: u64) -> (r: bool)
    ensures
        r == (exists && size > 0),
{
    exists && size > 0
}

/// Which attempt at a cut has just run.
#[derive(Clone, Copy, Debug)]
pub enum CutAttempt {
    /// On the source itself.
    Direct,
    /// On a remuxed copy of the source.
    OnRemuxedCopy,
}

/// What follows a cut attempt.
#[derive(Debug)]
pub enum CutNext {
    /// The cut is over, with this outcome.
    Finish(Result<i64, String>),
    /// Remux the source and cut the remuxed copy.
    RemuxAndRetry,
}

/// What follows a cut attempt: a first attempt that fails is retried once on
/// a remuxed copy; any other outcome is the cut's outcome.
pub fn after_cut(attempt: CutAttempt, outcome: Result<i64, String>) -> (r: CutNext)
    ensures
        match (attempt, outcome) {
            (CutAttempt::Direct, Err(_)) => r is RemuxAndRetry,
            (_, Ok(d)) => r matches CutNext::Finish(Ok(e)) && e == d,
            (CutAttempt::OnRemuxedCopy, Err(e)) => r matches CutNext::Finish(Err(f)) && f@ == e@,
        },
{
    match (attempt, outcome) {
        (CutAttempt::Direct, Err(_)) => CutNext::RemuxAndRetry,
        (_, o) => CutNext::Finish(o),
    }
}

} // verus!
