//! Reading a video's duration and frame size out of the diagnostic output of
//! `ffmpeg -i`.
use vstd::prelude::*;
use crate::text::{chars_of, string_of, sub_vec, trim, trim_start, trim_vec, trim_bounds, find, find_first, occurs_at, contains, lines, split_lines, views, split_on, split_char, leading_digits, leading_digits_from, is_digit};
use crate::number::{seconds_text_ms, parse_seconds_ms, all_digits, all_ascii_digits, u32_text_value, parse_u32};

verus! {

/// One line that `ffmpeg` wrote, and the stream it came on.
#[derive(Debug)]
pub struct FfmpegLog {
    pub line: String,
    pub stream: String,
}

/// The error when `ffmpeg` cannot be started: `ffmpeg 启动失败: <error>`.
pub fn start_failed(error: &str) -> (r: String)
    ensures
        r@ == "ffmpeg 启动失败: "@ + error@,
{
    let mut out = chars_of("ffmpeg 启动失败: ");
    crate::text::push_str(&mut out, error);
    string_of(out.as_slice())
}

/// The milliseconds a time component gives: its value as seconds, 0 when it
/// does not read as a number.
pub open spec fn component_ms(p: Seq<char>) -> int {
    match seconds_text_ms(p) {
        Some(v) => v as int,
        None => 0,
    }
}

/// The duration a line gives: after `Duration:`, the text up to the next
/// comma, trimmed, in three `:`-separated parts read as hours, minutes and
/// seconds.
pub open spec fn duration_of_line(line: Seq<char>) -> Option<int> {
    match find_first(line, "Duration:"@) {
        None => None,
        Some(i) => {
            let t = trim_start(line.skip(i + 9));
            match find_first(t, seq![',']) {
                None => None,
                Some(c) => {
                    let parts = split_on(trim(t.take(c)), ':');
                    if parts.len() == 3 {
                        Some(component_ms(parts[0]) * 3600 + component_ms(parts[1]) * 60 + component_ms(parts[2]))
                    } else {
                        None
                    }
                },
            }
        },
    }
}

/// The duration the first line that gives one gives.
pub open spec fn first_duration(ls: Seq<Seq<char>>) -> Option<int>
    decreases ls.len(),
{
    if ls.len() == 0 {
        None
    } else {
        match duration_of_line(ls[0]) {
            Some(d) => Some(d),
            None => first_duration(ls.drop_first()),
        }
    }
}

/// `v` held within the range of `i64`.
pub open spec fn clamp_i64(v: int) -> i64 {
    if v > i64::MAX { i64::MAX } else if v < i64::MIN { i64::MIN } else { v as i64 }
}

/// The message when no duration can be read.
pub open spec fn no_duration_message() -> Seq<char> {
    "无法从 ffmpeg 输出解析时长"@
}

fn component_value(p: &[char]) -> (r: i64)
    ensures
        r == component_ms(p@),
{
    match parse_seconds_ms(p) {
        Some(v) => v,
        None => 0,
    }
}

fn line_duration(line: &[char]) -> (r: Option<i128>)
    ensures
        match r {
            Some(v) => duration_of_line(line@) == Some(v as int),
            None => duration_of_line(line@) is None,
        },
{
    proof {
        reveal_strlit("Duration:");
    }
    let key = chars_of("Duration:");
    let i = match find(line, key.as_slice()) {
        None => return None,
        Some(i) => i,
    };
    let len = line.len();
    assert(i + 9 <= len);
    let after = sub_vec(line, i + 9, len);
    assert(after@ == line@.skip(i + 9));
    let (a, _b) = trim_bounds(after.as_slice());
    let t = sub_vec(after.as_slice(), a, after.len());
    assert(t@ == trim_start(after@));
    let comma = [','];
    assert(comma@ == seq![',']);
    let c = match find(t.as_slice(), &comma) {
        None => return None,
        Some(c) => c,
    };
    let head = sub_vec(t.as_slice(), 0, c);
    assert(head@ == t@.take(c as int));
    let time_str = trim_vec(head.as_slice());
    let parts = split_char(time_str.as_slice(), ':');
    if parts.len() != 3 {
        return None;
    }
    assert(views(parts@)[0] == parts@[0]@);
    assert(views(parts@)[1] == parts@[1]@);
    assert(views(parts@)[2] == parts@[2]@);
    let h = component_value(parts[0].as_slice()) as i128;
    let m = component_value(parts[1].as_slice()) as i128;
    let s = component_value(parts[2].as_slice()) as i128;
    Some(h * 3600 + m * 60 + s)
}

/// Reads the duration, in ms, out of the output of `ffmpeg -i` (the first line
/// that gives one; see `duration_of_line`), held within the range of `i64`.
pub fn parse_duration_output(output: &str) -> (r: Result<i64, String>)
    ensures
        match first_duration(lines(output@)) {
            Some(d) => r == Ok::<i64, String>(clamp_i64(d)),
            None => r matches Err(e) && e@ == no_duration_message(),
        },
{
    let all = chars_of(output);
    let ls = split_lines(all.as_slice());
    let ghost lv = lines(output@);
    let mut i: usize = 0;
    assert(lv.skip(0) == lv);
    while i < ls.len()
        invariant
            i <= ls@.len(),
            views(ls@) == lv,
            lv == lines(output@),
            first_duration(lv) == first_duration(lv.skip(i as int)),
        decreases ls@.len() - i,
    {
        let ghost rest = lv.skip(i as int);
        assert(rest[0] == ls@[i as int]@);
        assert(rest.drop_first() == lv.skip(i + 1));
        match line_duration(ls[i].as_slice()) {
            Some(v) => {
                let r = if v > i64::MAX as i128 { i64::MAX } else if v < i64::MIN as i128 { i64::MIN } else { v as i64 };
                return Ok(r);
            },
            None => {},
        }
        i = i + 1;
    }
    assert(lv.skip(i as int) == Seq::<Seq<char>>::empty());
    Err(String::from_str("无法从 ffmpeg 输出解析时长"))
}

// ---------------------------------------------------------------------
// Frame size
// ---------------------------------------------------------------------

/// The frame size a word gives: trimmed, it reads `<digits>x<digits>...` with
/// at least one digit after the `x`, both numbers fitting in a `u32`.
pub open spec fn dims_of_word(raw: Seq<char>) -> Option<(u32, u32)> {
    let w = trim(raw);
    match find_first(w, seq!['x']) {
        None => None,
        Some(x) => if all_digits(w.take(x)) && x + 1 < w.len() && is_digit(w[x + 1]) {
            match (u32_text_value(w.take(x)), u32_text_value(leading_digits(w.skip(x + 1)))) {
                (Some(a), Some(b)) => Some((a, b)),
                _ => None,
            }
        } else {
            None
        },
    }
}

/// The frame size the first word of `ws` that gives one gives.
pub open spec fn first_dims(ws: Seq<Seq<char>>) -> Option<(u32, u32)>
    decreases ws.len(),
{
    if ws.len() == 0 {
        None
    } else {
        match dims_of_word(ws[0]) {
            Some(d) => Some(d),
            None => first_dims(ws.drop_first()),
        }
    }
}

/// The frame size a line gives: a line mentioning `Video:`, read from its
/// first space on, as comma-separated words.
pub open spec fn dims_of_line(line: Seq<char>) -> Option<(u32, u32)> {
    if !(exists|i: int| occurs_at(line, "Video:"@, i)) {
        None
    } else {
        match find_first(line, seq![' ']) {
            None => None,
            Some(sp) => first_dims(split_on(line.skip(sp), ',')),
        }
    }
}

/// The frame size the first line of `ls` that gives one gives.
pub open spec fn first_line_dims(ls: Seq<Seq<char>>) -> Option<(u32, u32)>
    decreases ls.len(),
{
    if ls.len() == 0 {
        None
    } else {
        match dims_of_line(ls[0]) {
            Some(d) => Some(d),
            None => first_line_dims(ls.drop_first()),
        }
    }
}

/// The message when no frame size can be read.
pub open spec fn no_dims_message() -> Seq<char> {
    "无法从 ffmpeg 输出解析分辨率"@
}

fn word_dims(raw: &[char]) -> (r: Option<(u32, u32)>)
    ensures
        r == dims_of_word(raw@),
{
    let w = trim_vec(raw);
    let xs = ['x'];
    assert(xs@ == seq!['x']);
    let x = match find(w.as_slice(), &xs) {
        None => return None,
        Some(x) => x,
    };
    let head = sub_vec(w.as_slice(), 0, x);
    assert(head@ == w@.take(x as int));
    let len = w.len();
    assert(x < len);
    if !all_ascii_digits(head.as_slice()) || !(x + 1 < len) || !('0' <= w[x + 1] && w[x + 1] <= '9') {
        return None;
    }
    let h = leading_digits_from(w.as_slice(), x + 1);
    match (parse_u32(head.as_slice()), parse_u32(h.as_slice())) {
        (Some(a), Some(b)) => Some((a, b)),
        _ => None,
    }
}

fn line_dims(line: &[char]) -> (r: Option<(u32, u32)>)
    ensures
        r == dims_of_line(line@),
{
    proof {
        reveal_strlit("Video:");
    }
    let key = chars_of("Video:");
    if !contains(line, key.as_slice()) {
        return None;
    }
    let sp = [' '];
    assert(sp@ == seq![' ']);
    let start = match find(line, &sp) {
        None => return None,
        Some(s) => s,
    };
    let rest = sub_vec(line, start, line.len());
    assert(rest@ == line@.skip(start as int));
    let words = split_char(rest.as_slice(), ',');
    let ghost wv = views(words@);
    let mut k: usize = 0;
    assert(wv.skip(0) == wv);
    while k < words.len()
        invariant
            k <= words@.len(),
            wv == views(words@),
            first_dims(wv) == first_dims(wv.skip(k as int)),
            wv == split_on(line@.skip(start as int), ','),
            exists|i: int| occurs_at(line@, "Video:"@, i),
            find_first(line@, seq![' ']) == Some(start as int),
        decreases words@.len() - k,
    {
        let ghost rest_w = wv.skip(k as int);
        assert(rest_w[0] == words@[k as int]@);
        assert(rest_w.drop_first() == wv.skip(k + 1));
        match word_dims(words[k].as_slice()) {
            Some(d) => {
                assert(first_dims(rest_w) == Some(d));
                return Some(d);
            },
            None => {},
        }
        k = k + 1;
    }
    assert(wv.skip(k as int) == Seq::<Seq<char>>::empty());
    None
}

/// Reads the frame size (width, height) out of the output of `ffmpeg -i`
/// (the first line that gives one; see `dims_of_line`).
pub fn parse_dimensions_output(output: &str) -> (r: Result<(u32, u32), String>)
    ensures
        match first_line_dims(lines(output@)) {
            Some(d) => r == Ok::<(u32, u32), String>(d),
            None => r matches Err(e) && e@ == no_dims_message(),
        },
{
    let all = chars_of(output);
    let ls = split_lines(all.as_slice());
    let ghost lv = lines(output@);
    let mut i: usize = 0;
    assert(lv.skip(0) == lv);
    while i < ls.len()
        invariant
            i <= ls@.len(),
            views(ls@) == lv,
            lv == lines(output@),
            first_line_dims(lv) == first_line_dims(lv.skip(i as int)),
        decreases ls@.len() - i,
    {
        let ghost rest = lv.skip(i as int);
        assert(rest[0] == ls@[i as int]@);
        assert(rest.drop_first() == lv.skip(i + 1));
        match line_dims(ls[i].as_slice()) {
            Some(d) => return Ok(d),
            None => {},
        }
        i = i + 1;
    }
    assert(lv.skip(i as int) == Seq::<Seq<char>>::empty());
    Err(String::from_str("无法从 ffmpeg 输出解析分辨率"))
}

} // verus!
