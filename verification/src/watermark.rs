//! Stamping frames with their time: the text size, margins and label, the
//! image tool to run, and the font to use on each platform.
use vstd::prelude::*;
use crate::text::{chars_of, push_str, push_decimal, decimal, string_of};
use crate::seconds::{fixed, push_fixed};

verus! {

/// The text size of the stamp for frames whose longer side is `max_size`
/// pixels: 12 below 240, 18 below 360, 22 below 540, 30 below 900, else 40.
pub open spec fn pointsize_of(max_size: u32) -> u32 {
    if max_size <= 239 {
        12
    } else if max_size <= 359 {
        18
    } else if max_size <= 539 {
        22
    } else if max_size <= 899 {
        30
    } else {
        40
    }
}

/// The text size of the stamp (see `pointsize_of`).
pub fn pointsize(max_size: u32) -> (r: u32)
    ensures
        r == pointsize_of(max_size),
{
    if max_size <= 239 {
        12
    } else if max_size <= 359 {
        18
    } else if max_size <= 539 {
        22
    } else if max_size <= 899 {
        30
    } else {
        40
    }
}

/// The margin of the stamp: half the text size, at least 8.
pub fn stamp_margin(pointsize: u32) -> (r: u32)
    ensures
        r == (if pointsize / 2 > 8 { pointsize / 2 } else { 8 }),
{
    let half = pointsize / 2;
    if half > 8 { half } else { 8 }
}

/// The offset argument of the stamp: `+<margin>+<margin>`.
pub fn stamp_offset(margin: u32) -> (r: String)
    ensures
        r@ == "+"@ + decimal(margin as nat) + "+"@ + decimal(margin as nat),
{
    let mut out = chars_of("+");
    push_decimal(&mut out, margin as u128);
    push_str(&mut out, "+");
    push_decimal(&mut out, margin as u128);
    string_of(out.as_slice())
}

/// The stamp of frame `index` (from 0) of `total`, taken at `t` ms:
/// `t: <seconds, 2 decimals>s  (<index + 1>/<total>)`.
pub open spec fn stamp_text(t: int, index: nat, total: nat) -> Seq<char> {
    "t: "@ + fixed(t, 2) + "s  ("@ + decimal(index + 1) + "/"@ + decimal(total) + ")"@
}

/// The stamp of a frame (see `stamp_text`).
pub fn stamp_label(t: i64, index: usize, total: usize) -> (r: String)
    ensures
        r@ == stamp_text(t as int, index as nat, total as nat),
{
    let mut out = chars_of("t: ");
    push_fixed(&mut out, t as i128, 2);
    push_str(&mut out, "s  (");
    push_decimal(&mut out, index as u128 + 1);
    push_str(&mut out, "/");
    push_decimal(&mut out, total as u128);
    push_str(&mut out, ")");
    string_of(out.as_slice())
}

/// The image tool that stamps frames: `magick` when it runs, else `convert`
/// when that runs, else an error.
pub fn stamp_tool(magick_runs: bool, convert_runs: bool) -> (r: Result<String, String>)
    ensures
        match r {
            Ok(t) => if magick_runs { t@ == "magick"@ } else { convert_runs && t@ == "convert"@ },
            Err(e) => !magick_runs && !convert_runs && e@ == "未找到 ImageMagick (magick/convert)，无法加水印"@,
        },
{
    if magick_runs {
        Ok(String::from_str("magick"))
    } else if convert_runs {
        Ok(String::from_str("convert"))
    } else {
        Err(String::from_str("未找到 ImageMagick (magick/convert)，无法加水印"))
    }
}

/// The platform a font is looked up for.
#[derive(Debug)]
pub enum Platform {
    MacOs,
    Windows,
    /// Any other system, looked up as Linux.
    Linux,
}

/// The font files tried on each platform, in order.
pub open spec fn font_candidates_of(p: Platform) -> Seq<Seq<char>> {
    match p {
        Platform::MacOs => seq![
            "/System/Library/Fonts/Supplemental/Arial.ttf"@,
            "/Library/Fonts/Arial.ttf"@,
            "/System/Library/Fonts/Helvetica.ttc"@,
        ],
        Platform::Windows => seq![
            "C:\\Windows\\Fonts\\arial.ttf"@,
            "C:\\Windows\\Fonts\\Arial.ttf"@,
            "C:\\Windows\\Fonts\\Arial.ttf"@,
        ],
        Platform::Linux => seq![
            "/usr/share/fonts/truetype/liberation/LiberationSans-Regular.ttf"@,
            "/usr/share/fonts/truetype/dejavu/DejaVuSans.ttf"@,
            "/usr/share/fonts/TTF/DejaVuSans.ttf"@,
        ],
    }
}

/// The font files tried on a platform (see `font_candidates_of`).
pub fn font_candidates(p: &Platform) -> (r: Vec<String>)
    ensures
        r@.map_values(|s: String| s@) == font_candidates_of(*p),
{
    let mut r: Vec<String> = Vec::new();
    match p {
        Platform::MacOs => {
            r.push(String::from_str("/System/Library/Fonts/Supplemental/Arial.ttf"));
            r.push(String::from_str("/Library/Fonts/Arial.ttf"));
            r.push(String::from_str("/System/Library/Fonts/Helvetica.ttc"));
        },
        Platform::Windows => {
            r.push(String::from_str("C:\\Windows\\Fonts\\arial.ttf"));
            r.push(String::from_str("C:\\Windows\\Fonts\\Arial.ttf"));
            r.push(String::from_str("C:\\Windows\\Fonts\\Arial.ttf"));
        },
        Platform::Linux => {
            r.push(String::from_str("/usr/share/fonts/truetype/liberation/LiberationSans-Regular.ttf"));
            r.push(String::from_str("/usr/share/fonts/truetype/dejavu/DejaVuSans.ttf"));
            r.push(String::from_str("/usr/share/fonts/TTF/DejaVuSans.ttf"));
        },
    }
    assert(r@.map_values(|s: String| s@) =~= font_candidates_of(*p));
    r
}

/// Whether something exists at `path` (`std::path::Path::exists`). What is on
/// disk decides, so nothing is stated of the answer.
#[verifier::external_body]
fn path_exists(path: &str) -> (r: bool) {
    std::path::Path::new(path).exists()
}

/// The first of `candidates` whose mark is set.
pub open spec fn first_marked_of(candidates: Seq<Seq<char>>, marks: Seq<bool>) -> Option<Seq<char>>
    decreases candidates.len(),
{
    if candidates.len() == 0 || marks.len() == 0 {
        None
    } else if marks[0] {
        Some(candidates[0])
    } else {
        first_marked_of(candidates.drop_first(), marks.drop_first())
    }
}

/// The first of `candidates` whose mark is set (see `first_marked_of`).
pub fn first_marked(candidates: &Vec<String>, marks: &Vec<bool>) -> (r: Option<String>)
    ensures
        opt_text(r) == first_marked_of(candidates@.map_values(|s: String| s@), marks@),
{
    let ghost cs = candidates@.map_values(|s: String| s@);
    let mut i: usize = 0;
    assert(cs.skip(0) =~= cs);
    assert(marks@.skip(0) =~= marks@);
    while i < candidates.len() && i < marks.len()
        invariant
            i <= candidates@.len(),
            i <= marks@.len(),
            cs == candidates@.map_values(|s: String| s@),
            first_marked_of(cs, marks@) == first_marked_of(cs.skip(i as int), marks@.skip(i as int)),
        decreases candidates@.len() - i,
    {
        assert(cs.skip(i as int).drop_first() =~= cs.skip(i + 1));
        assert(marks@.skip(i as int).drop_first() =~= marks@.skip(i + 1));
        if marks[i] {
            return Some(candidates[i].clone());
        }
        i = i + 1;
    }
    None
}

/// The characters of an optional string.
pub open spec fn opt_text(s: Option<String>) -> Option<Seq<char>> {
    match s {
        Some(x) => Some(x@),
        None => None,
    }
}

/// The first font file of the platform that exists on disk, if any: each
/// candidate is asked about in order, and the first one the disk reports as
/// existing is returned (none when it reports none). Which ones exist is up
/// to the disk; what is returned is always one of the platform's candidates.
pub fn resolve_system_font(p: Platform) -> (r: Option<String>)
    ensures
        r matches Some(f) ==> font_candidates_of(p).contains(f@),
        exists|found: Seq<bool>| found.len() == font_candidates_of(p).len()
            && #[trigger] first_marked_of(font_candidates_of(p), found) == opt_text(r),
{
    let cs = font_candidates(&p);
    let mut marks: Vec<bool> = Vec::new();
    let mut i: usize = 0;
    while i < cs.len()
        invariant
            i <= cs@.len(),
            marks@.len() == i,
        decreases cs@.len() - i,
    {
        marks.push(path_exists(cs[i].as_str()));
        i = i + 1;
    }
    let r = first_marked(&cs, &marks);
    proof {
        lemma_first_marked_in(cs@.map_values(|s: String| s@), marks@);
        assert(first_marked_of(font_candidates_of(p), marks@) == opt_text(r));
    }
    r
}

proof fn lemma_first_marked_in(candidates: Seq<Seq<char>>, marks: Seq<bool>)
    ensures
        first_marked_of(candidates, marks) matches Some(f) ==> candidates.contains(f),
    decreases candidates.len(),
{
    if candidates.len() > 0 && marks.len() > 0 && !marks[0] {
        lemma_first_marked_in(candidates.drop_first(), marks.drop_first());
        if let Some(f) = first_marked_of(candidates, marks) {
            let k = choose|k: int| 0 <= k < candidates.drop_first().len() && candidates.drop_first()[k] == f;
            assert(candidates[k + 1] == f);
        }
    }
}

/// The font argument of the stamp: the font file found, else `Arial`.
pub fn font_arg(found: Option<String>) -> (r: String)
    ensures
        r@ == match found {
            Some(f) => f@,
            None => "Arial"@,
        },
{
    match found {
        Some(f) => f,
        None => String::from_str("Arial"),
    }
}

} // verus!
