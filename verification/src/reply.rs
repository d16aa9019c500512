//! Talking to the vision model: the endpoint address, what a reply comes to,
//! and how the answers of several batches of frames are put together.
use vstd::prelude::*;
use crate::text::{chars_of, push_str, push_decimal, decimal, string_of};
use crate::encoding::{base64, encode_base64};
use crate::vision::{
    CutShot, ShotView, shot_views, byte_prefix, has_byte_prefix, utf8_len, utf8_length,
    exact_byte_prefix, reply_content, extract_content_sse_or_json, reads_as, reply_readable,
    parse_segments_json, segments_from_reply, length_ok, filter_shots_by_length,
};

verus! {

/// `s` without the run of `c` at its end (`str::trim_end_matches` with a char).
pub open spec fn trim_end_char(s: Seq<char>, c: char) -> Seq<char>
    decreases s.len(),
{
    if s.len() > 0 && s.last() == c {
        trim_end_char(s.drop_last(), c)
    } else {
        s
    }
}

/// The chat completions endpoint under `base_url`: its trailing `/`s taken
/// off, then `/chat/completions`.
pub fn chat_url(base_url: &str) -> (r: String)
    ensures
        r@ == trim_end_char(base_url@, '/') + "/chat/completions"@,
{
    let v = chars_of(base_url);
    let mut j: usize = v.len();
    assert(v@.take(j as int) =~= v@);
    while j > 0 && v[j - 1] == '/'
        invariant
            j <= v@.len(),
            trim_end_char(v@, '/') == trim_end_char(v@.take(j as int), '/'),
        decreases j,
    {
        assert(v@.take(j as int).drop_last() =~= v@.take(j - 1));
        j = j - 1;
    }
    let mut out: Vec<char> = Vec::new();
    let mut i: usize = 0;
    while i < j
        invariant
            i <= j <= v@.len(),
            out@ == v@.take(i as int),
        decreases j - i,
    {
        out.push(v[i]);
        i = i + 1;
        assert(out@ =~= v@.take(i as int));
    }
    assert(trim_end_char(v@.take(j as int), '/') == v@.take(j as int));
    push_str(&mut out, "/chat/completions");
    string_of(out.as_slice())
}

/// An HTTP status counts as success when it is in `200..=299`
/// (`StatusCode::is_success`).
pub open spec fn http_success(status: u16) -> bool {
    200 <= status <= 299
}

/// The smaller of a text's UTF-8 length and `limit`.
pub open spec fn capped_len(s: Seq<char>, limit: nat) -> nat {
    if utf8_len(s) < limit { utf8_len(s) } else { limit }
}

/// The error for a reply with a failing status: `HTTP <status>: ` and the
/// first `limit` bytes of the body.
pub open spec fn http_error_message(status_text: Seq<char>, body: Seq<char>, limit: nat) -> Seq<char> {
    "HTTP "@ + status_text + ": "@ + byte_prefix(body, capped_len(body, limit))
}

/// The error for a reply with a failing status (see `http_error_message`).
/// The body is cut after `limit` bytes, which must fall between characters.
pub fn http_error(status_text: &str, body: &str, limit: u64) -> (r: String)
    requires
        has_byte_prefix(body@, capped_len(body@, limit as nat)),
    ensures
        r@ == http_error_message(status_text@, body@, limit as nat),
{
    let b = chars_of(body);
    let n = utf8_length(b.as_slice());
    let cap: u64 = if n < limit as u128 { n as u64 } else { limit };
    let mut out = chars_of("HTTP ");
    push_str(&mut out, status_text);
    push_str(&mut out, ": ");
    match exact_byte_prefix(b.as_slice(), cap) {
        Some(p) => {
            let ghost before = out@;
            crate::text::push_all(&mut out, p.as_slice());
            assert(out@ == before + byte_prefix(body@, capped_len(body@, limit as nat)));
        },
        None => {},
    }
    string_of(out.as_slice())
}

/// The characters of a text result.
pub open spec fn result_view(r: Result<String, String>) -> Result<Seq<char>, Seq<char>> {
    match r {
        Ok(s) => Ok(s@),
        Err(e) => Err(e@),
    }
}

/// What a connection test comes to: on success `OK (HTTP <status>, 回复: <content>)`
/// (`(空)` for an empty content), else the status error with 500 bytes of the body.
pub open spec fn connection_outcome(status: u16, status_text: Seq<char>, body: Seq<char>) -> Result<Seq<char>, Seq<char>> {
    if http_success(status) {
        let c = reply_content(body);
        Ok("OK (HTTP "@ + status_text + ", 回复: "@ + (if c.len() == 0 { "(空)"@ } else { c }) + ")"@)
    } else {
        Err(http_error_message(status_text, body, 500))
    }
}

/// The answer to a connection test (see `connection_outcome`). A failing reply
/// is cut after 500 bytes, which must fall between characters.
pub fn connection_report(status: u16, status_text: &str, body: &str) -> (r: Result<String, String>)
    requires
        http_success(status) || has_byte_prefix(body@, capped_len(body@, 500)),
    ensures
        result_view(r) == connection_outcome(status, status_text@, body@),
{
    if !(200 <= status && status <= 299) {
        return Err(http_error(status_text, body, 500));
    }
    let c = extract_content_sse_or_json(body);
    let mut out = chars_of("OK (HTTP ");
    push_str(&mut out, status_text);
    push_str(&mut out, ", 回复: ");
    let cv = chars_of(c.as_str());
    if cv.len() == 0 {
        push_str(&mut out, "(空)");
    } else {
        crate::text::push_all(&mut out, cv.as_slice());
    }
    push_str(&mut out, ")");
    Ok(string_of(out.as_slice()))
}

/// A model reply can be read without cutting text inside a character: on
/// success its content is `reply_readable`; on failure its first 800 bytes
/// end between characters.
pub open spec fn vision_reply_readable(status: u16, body: Seq<char>) -> bool {
    if http_success(status) {
        reply_readable(reply_content(body))
    } else {
        has_byte_prefix(body, capped_len(body, 800))
    }
}

/// What the reply to a batch of frames comes to: on success the proposals
/// read from its content (`reads_as`), else the status error with 800 bytes
/// of the body.
pub open spec fn vision_outcome(status: u16, status_text: Seq<char>, body: Seq<char>, r: Result<Vec<CutShot>, String>) -> bool {
    if http_success(status) {
        reads_as(reply_content(body), r)
    } else {
        r matches Err(e) && e@ == http_error_message(status_text, body, 800)
    }
}

/// The cut proposals in the reply to a batch of frames (see `vision_outcome`).
pub fn vision_reply(status: u16, status_text: &str, body: &str) -> (r: Result<Vec<CutShot>, String>)
    requires
        vision_reply_readable(status, body@),
    ensures
        vision_outcome(status, status_text@, body@, r),
{
    if !(200 <= status && status <= 299) {
        return Err(http_error(status_text, body, 800));
    }
    let c = extract_content_sse_or_json(body);
    parse_segments_json(c.as_str())
}

/// The cut proposals in the reply to a batch of frames (see `vision_outcome`);
/// `None` when the reply is not `vision_reply_readable`, where reading it would
/// cut text inside a character.
pub fn checked_vision_reply(status: u16, status_text: &str, body: &str) -> (r: Option<Result<Vec<CutShot>, String>>)
    ensures
        r is Some <==> vision_reply_readable(status, body@),
        r matches Some(x) ==> vision_outcome(status, status_text@, body@, x),
{
    if !(200 <= status && status <= 299) {
        let b = chars_of(body);
        let n = utf8_length(b.as_slice());
        let cap: u64 = if n < 800 { n as u64 } else { 800 };
        return match exact_byte_prefix(b.as_slice(), cap) {
            Some(_) => Some(vision_reply(status, status_text, body)),
            None => None,
        };
    }
    let c = extract_content_sse_or_json(body);
    match segments_from_reply(c.as_str()) {
        Some(_) => Some(vision_reply(status, status_text, body)),
        None => None,
    }
}

// ---------------------------------------------------------------------
// Batches of frames
// ---------------------------------------------------------------------

/// How many frames go to the model in one request.
pub const FRAME_BATCH: usize = 16;

/// The batches in which `n` frames go to the model, as index ranges: runs of
/// `FRAME_BATCH` in order, the last one possibly shorter.
pub open spec fn batch_ranges_of(n: nat) -> Seq<(int, int)> {
    Seq::new(
        ((n + 15) / 16) as nat,
        |k: int| (16 * k, if 16 * k + 16 < n { 16 * k + 16 } else { n as int }),
    )
}

proof fn lemma_batch_count(len: nat, n: nat)
    requires
        len == 0 || 16 * (len - 1) < n,
        n <= 16 * len,
    ensures
        len == (n + 15) / 16,
{
    assert(len == (n + 15) / 16) by (nonlinear_arith)
        requires
            len == 0 || 16 * (len - 1) < n,
            n <= 16 * len,
    ;
}

/// The batches of `n` frames (see `batch_ranges_of`).
pub fn batch_ranges(n: usize) -> (r: Vec<(usize, usize)>)
    ensures
        r@.len() == batch_ranges_of(n as nat).len(),
        forall|k: int| 0 <= k < r@.len() ==> (#[trigger] r@[k]).0 as int == batch_ranges_of(n as nat)[k].0
            && r@[k].1 as int == batch_ranges_of(n as nat)[k].1,
{
    let mut r: Vec<(usize, usize)> = Vec::new();
    let mut lo: usize = 0;
    while lo < n
        invariant
            lo <= n,
            lo == (if 16 * r@.len() < n { 16 * (r@.len() as int) } else { n as int }),
            r@.len() == 0 || 16 * (r@.len() - 1) < n,
            forall|k: int| 0 <= k < r@.len() ==> (#[trigger] r@[k]).0 as int == 16 * k
                && r@[k].1 as int == (if 16 * k + 16 < n { 16 * k + 16 } else { n as int }),
        decreases n - lo,
    {
        let hi: usize = if n - lo > FRAME_BATCH { lo + FRAME_BATCH } else { n };
        r.push((lo, hi));
        lo = hi;
    }
    proof {
        lemma_batch_count(r@.len(), n as nat);
    }
    r
}

/// The batches cover the frames in order, without gaps: the first starts at
/// 0, each starts where the previous one ends, the last ends at `n`, and each
/// holds from 1 to `FRAME_BATCH` frames.
pub proof fn lemma_batches_tile(n: nat)
    requires
        n > 0,
    ensures
        ({
            let b = batch_ranges_of(n);
            &&& b.len() >= 1
            &&& b[0].0 == 0
            &&& b[b.len() - 1].1 == n
            &&& forall|i: int| 0 <= i < b.len() - 1 ==> (#[trigger] b[i]).1 == b[i + 1].0
            &&& forall|i: int| 0 <= i < b.len() ==> 1 <= (#[trigger] b[i]).1 - b[i].0 <= 16
        }),
{
    let m = (n + 15) / 16;
    assert(m >= 1 && 16 * (m - 1) < n && n <= 16 * m) by (nonlinear_arith)
        requires
            n > 0,
            m == (n + 15) / 16,
    ;
    let b = batch_ranges_of(n);
    assert(b.len() == m);
}

/// The error when batch `k` (from 0) fails with `e`.
pub open spec fn batch_failed_text(k: int, e: Seq<char>) -> Seq<char> {
    "第 "@ + decimal((k + 1) as nat) + " 批分析失败: "@ + e
}

/// The error when batch `k` (from 0) fails with `e` (see `batch_failed_text`).
pub fn batch_failed(k: usize, e: &str) -> (r: String)
    ensures
        r@ == batch_failed_text(k as int, e@),
{
    let mut out = chars_of("第 ");
    push_decimal(&mut out, k as u128 + 1);
    push_str(&mut out, " 批分析失败: ");
    push_str(&mut out, e);
    string_of(out.as_slice())
}

/// What the answer to one batch holds.
pub open spec fn answer_view(a: Result<Vec<CutShot>, String>) -> Result<Seq<ShotView>, Seq<char>> {
    match a {
        Ok(v) => Ok(shot_views(v@)),
        Err(e) => Err(e@),
    }
}

/// The proposals of all batches in order, or the first failing batch and its error.
pub open spec fn gathered(answers: Seq<Result<Seq<ShotView>, Seq<char>>>) -> Result<Seq<ShotView>, (int, Seq<char>)>
    decreases answers.len(),
{
    if answers.len() == 0 {
        Ok(seq![])
    } else {
        match gathered(answers.drop_last()) {
            Err(x) => Err(x),
            Ok(acc) => match answers.last() {
                Ok(v) => Ok(acc + v),
                Err(e) => Err(((answers.len() - 1) as int, e)),
            },
        }
    }
}

/// What the proposals for a window come to, from its number of frames and the
/// answers to its batches: no frames is an error; the first failing batch
/// makes the whole an error; else all proposals in order, kept where their
/// length fits the target (`length_ok`).
pub open spec fn proposals_outcome(
    frame_count: nat,
    answers: Seq<Result<Seq<ShotView>, Seq<char>>>,
    target: int,
    tolerance: int,
) -> Result<Seq<ShotView>, Seq<char>> {
    if frame_count == 0 {
        Err("无帧可分析"@)
    } else {
        match gathered(answers) {
            Err((k, e)) => Err(batch_failed_text(k, e)),
            Ok(all) => Ok(all.filter(|s: ShotView| length_ok(s, target, tolerance))),
        }
    }
}

/// Every proposal handed back for a window fits the target: at least the
/// target and at least 2 s long, at most the target plus the tolerance.
pub proof fn lemma_proposals_fit(
    frame_count: nat,
    answers: Seq<Result<Seq<ShotView>, Seq<char>>>,
    target: int,
    tolerance: int,
)
    ensures
        proposals_outcome(frame_count, answers, target, tolerance) matches Ok(v)
            ==> forall|i: int| 0 <= i < v.len() ==> length_ok(#[trigger] v[i], target, tolerance),
{
    if frame_count > 0 {
        if let Ok(all) = gathered(answers) {
            let pred = |s: ShotView| length_ok(s, target, tolerance);
            let v = all.filter(pred);
            assert forall|i: int| 0 <= i < v.len() implies length_ok(#[trigger] v[i], target, tolerance) by {
                all.lemma_filter_pred(pred, i);
            }
        }
    }
}

/// What a list of proposals or an error holds.
pub open spec fn shots_result_view(r: Result<Vec<CutShot>, String>) -> Result<Seq<ShotView>, Seq<char>> {
    answer_view(r)
}

proof fn lemma_gathered_failure_stays(s: Seq<Result<Seq<ShotView>, Seq<char>>>, m: int, n: int)
    requires
        0 <= m <= n <= s.len(),
        gathered(s.take(m)) is Err,
    ensures
        gathered(s.take(n)) == gathered(s.take(m)),
    decreases n - m,
{
    if n > m {
        lemma_gathered_failure_stays(s, m, n - 1);
        assert(s.take(n).drop_last() =~= s.take(n - 1));
    }
}

fn append_shots(out: &mut Vec<CutShot>, v: &Vec<CutShot>)
    ensures
        shot_views(final(out)@) == shot_views(old(out)@) + shot_views(v@),
{
    let mut j: usize = 0;
    while j < v.len()
        invariant
            j <= v@.len(),
            shot_views(out@) == shot_views(old(out)@) + shot_views(v@).take(j as int),
        decreases v@.len() - j,
    {
        let d = v[j].duplicate();
        let ghost before = out@;
        out.push(d);
        assert(shot_views(out@) =~= shot_views(before).push(d@));
        assert(shot_views(v@).take(j + 1) =~= shot_views(v@).take(j as int).push(shot_views(v@)[j as int]));
        j = j + 1;
    }
    assert(shot_views(v@).take(j as int) =~= shot_views(v@));
}

/// The proposals for a window of `frame_count` frames from the answers to its
/// batches, in batch order (see `proposals_outcome`).
pub fn proposals_from_batches(
    frame_count: usize,
    answers: Vec<Result<Vec<CutShot>, String>>,
    target: i64,
    tolerance: i64,
) -> (r: Result<Vec<CutShot>, String>)
    ensures
        shots_result_view(r) == proposals_outcome(
            frame_count as nat,
            answers@.map_values(|a: Result<Vec<CutShot>, String>| answer_view(a)),
            target as int,
            tolerance as int,
        ),
{
    if frame_count == 0 {
        return Err(String::from_str("无帧可分析"));
    }
    let ghost av = answers@.map_values(|a: Result<Vec<CutShot>, String>| answer_view(a));
    let mut all: Vec<CutShot> = Vec::new();
    let mut i: usize = 0;
    assert(av.take(0) =~= Seq::<Result<Seq<ShotView>, Seq<char>>>::empty());
    assert(shot_views(all@) =~= Seq::<ShotView>::empty());
    while i < answers.len()
        invariant
            frame_count > 0,
            i <= answers@.len(),
            av == answers@.map_values(|a: Result<Vec<CutShot>, String>| answer_view(a)),
            gathered(av.take(i as int)) == Ok::<Seq<ShotView>, (int, Seq<char>)>(shot_views(all@)),
        decreases answers@.len() - i,
    {
        assert(av.take(i + 1).drop_last() =~= av.take(i as int));
        match &answers[i] {
            Ok(v) => {
                assert(av[i as int] == answer_view(answers@[i as int]));
                append_shots(&mut all, v);
            },
            Err(e) => {
                let msg = batch_failed(i, e.as_str());
                proof {
                    assert(av[i as int] == answer_view(answers@[i as int]));
                    assert(gathered(av.take(i + 1)) == Err::<Seq<ShotView>, (int, Seq<char>)>((i as int, e@)));
                    lemma_gathered_failure_stays(av, i + 1, av.len() as int);
                    assert(av.take(av.len() as int) =~= av);
                    assert(gathered(av) == Err::<Seq<ShotView>, (int, Seq<char>)>((i as int, e@)));
                    assert(proposals_outcome(frame_count as nat, av, target as int, tolerance as int)
                        == Err::<Seq<ShotView>, Seq<char>>(batch_failed_text(i as int, e@)));
                }
                return Err(msg);
            },
        }
        i = i + 1;
    }
    assert(av.take(i as int) =~= av);
    Ok(filter_shots_by_length(all, target, tolerance))
}

// ---------------------------------------------------------------------
// Frames as sent
// ---------------------------------------------------------------------

/// Frame files larger than this many bytes are not sent.
pub const MAX_FRAME_BYTES: usize = 1500000;

/// What a frame file of these bytes comes to: its base64 text, or an error
/// naming the file when it is larger than `MAX_FRAME_BYTES`.
pub open spec fn frame_payload_of(path: Seq<char>, bytes: Seq<u8>) -> Result<Seq<char>, Seq<char>> {
    if bytes.len() > 1500000 {
        Err("文件过大 (>1.5MB): "@ + path)
    } else {
        Ok(base64(bytes))
    }
}

/// The base64 text of a frame file's bytes (see `frame_payload_of`).
pub fn frame_base64(path: &str, bytes: &[u8]) -> (r: Result<String, String>)
    ensures
        result_view(r) == frame_payload_of(path@, bytes@),
{
    if bytes.len() > MAX_FRAME_BYTES {
        let mut out = chars_of("文件过大 (>1.5MB): ");
        push_str(&mut out, path);
        return Err(string_of(out.as_slice()));
    }
    Ok(encode_base64(bytes))
}

/// The error when a frame file cannot be read: `读文件失败 <path>: <error>`.
pub fn read_failed(path: &str, error: &str) -> (r: String)
    ensures
        r@ == "读文件失败 "@ + path@ + ": "@ + error@,
{
    let mut out = chars_of("读文件失败 ");
    push_str(&mut out, path);
    push_str(&mut out, ": ");
    push_str(&mut out, error);
    string_of(out.as_slice())
}

/// The image address under which a frame is sent: a JPEG data URL.
pub fn image_url(data_base64: &str) -> (r: String)
    ensures
        r@ == "data:image/jpeg;base64,"@ + data_base64@,
{
    let mut out = chars_of("data:image/jpeg;base64,");
    push_str(&mut out, data_base64);
    string_of(out.as_slice())
}

} // verus!
