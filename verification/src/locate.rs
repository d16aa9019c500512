//! Where the `ffmpeg` binary is looked for, in order: an explicit override,
//! the application bundle, the project's own `bin/` folder, the `PATH`, and a
//! few usual folders. Which of these exist is for the caller to find out;
//! these functions give the places and pick among the answers.
use vstd::prelude::*;
use crate::text::{chars_of, push_str, string_of, same_text, trim, trim_vec, lines, split_lines, views};
use crate::config::{joined, join_path};

verus! {

/// The binary looked for: `name`, or `ffmpeg` when `name` is empty.
pub open spec fn bin_name_of(name: Seq<char>) -> Seq<char> {
    if name.len() == 0 { "ffmpeg"@ } else { name }
}

/// The binary looked for (see `bin_name_of`).
pub fn bin_name(name: &str) -> (r: String)
    ensures
        r@ == bin_name_of(name@),
{
    let v = chars_of(name);
    if v.len() == 0 {
        String::from_str("ffmpeg")
    } else {
        String::from_str(name)
    }
}

/// The path given by the override variable, trimmed; none when it is blank.
pub fn override_path(value: &str) -> (r: Option<String>)
    ensures
        match r {
            Some(p) => trim(value@).len() > 0 && p@ == trim(value@),
            None => trim(value@).len() == 0,
        },
{
    let v = chars_of(value);
    let t = trim_vec(v.as_slice());
    if t.len() == 0 {
        None
    } else {
        Some(string_of(t.as_slice()))
    }
}

/// The places tried inside the application bundle, from the folder of the
/// running program: `../Resources/<bin>`, `../Resources/_up_/bin/<bin>`,
/// `Resources/<bin>` and `<bin>`, each joined to that folder.
pub open spec fn bundle_candidates_of(exe_dir: Seq<char>, bin: Seq<char>) -> Seq<Seq<char>> {
    seq![
        joined(exe_dir, "../Resources/"@ + bin),
        joined(exe_dir, "../Resources/_up_/bin/"@ + bin),
        joined(exe_dir, "Resources/"@ + bin),
        joined(exe_dir, bin),
    ]
}

fn prefixed(prefix: &str, s: &str) -> (r: String)
    ensures
        r@ == prefix@ + s@,
{
    let mut out = chars_of(prefix);
    push_str(&mut out, s);
    string_of(out.as_slice())
}

/// The places tried inside the application bundle (see `bundle_candidates_of`).
pub fn bundle_candidates(exe_dir: &str, bin: &str) -> (r: Vec<String>)
    ensures
        r@.map_values(|s: String| s@) == bundle_candidates_of(exe_dir@, bin@),
{
    let mut r: Vec<String> = Vec::new();
    let a = prefixed("../Resources/", bin);
    r.push(join_path(exe_dir, a.as_str()));
    let b = prefixed("../Resources/_up_/bin/", bin);
    r.push(join_path(exe_dir, b.as_str()));
    let c = prefixed("Resources/", bin);
    r.push(join_path(exe_dir, c.as_str()));
    r.push(join_path(exe_dir, bin));
    assert(r@.map_values(|s: String| s@) =~= bundle_candidates_of(exe_dir@, bin@));
    r
}

/// The places tried in the project's own folder `root`:
/// `bin/ffmpeg-darwin-x64`, then `bin/ffmpeg`.
pub open spec fn project_candidates_of(root: Seq<char>) -> Seq<Seq<char>> {
    seq![joined(root, "bin/ffmpeg-darwin-x64"@), joined(root, "bin/ffmpeg"@)]
}

/// The places tried in the project's own folder (see `project_candidates_of`).
pub fn project_candidates(root: &str) -> (r: Vec<String>)
    ensures
        r@.map_values(|s: String| s@) == project_candidates_of(root@),
{
    let mut r: Vec<String> = Vec::new();
    r.push(join_path(root, "bin/ffmpeg-darwin-x64"));
    r.push(join_path(root, "bin/ffmpeg"));
    assert(r@.map_values(|s: String| s@) =~= project_candidates_of(root@));
    r
}

/// The binary in the `bin` folder of the working folder `cwd`: `ffmpeg.exe`
/// on Windows, else `ffmpeg`.
pub fn working_dir_candidate(cwd: &str, windows: bool) -> (r: String)
    ensures
        r@ == joined(joined(cwd@, "bin"@), if windows { "ffmpeg.exe"@ } else { "ffmpeg"@ }),
{
    let d = join_path(cwd, "bin");
    if windows {
        join_path(d.as_str(), "ffmpeg.exe")
    } else {
        join_path(d.as_str(), "ffmpeg")
    }
}

/// The usual folders tried last: `<folder>/<bin>` for `/opt/homebrew/bin`,
/// `/usr/local/bin` and `/usr/bin`, in this order.
pub open spec fn system_candidates_of(bin: Seq<char>) -> Seq<Seq<char>> {
    seq!["/opt/homebrew/bin/"@ + bin, "/usr/local/bin/"@ + bin, "/usr/bin/"@ + bin]
}

/// The usual folders tried last (see `system_candidates_of`).
pub fn system_candidates(bin: &str) -> (r: Vec<String>)
    ensures
        r@.map_values(|s: String| s@) == system_candidates_of(bin@),
{
    let mut r: Vec<String> = Vec::new();
    r.push(prefixed("/opt/homebrew/bin/", bin));
    r.push(prefixed("/usr/local/bin/", bin));
    r.push(prefixed("/usr/bin/", bin));
    assert(r@.map_values(|s: String| s@) =~= system_candidates_of(bin@));
    r
}

/// The path that `which` printed: its first output line, trimmed; none when
/// it printed nothing.
pub fn which_answer(stdout: &str) -> (r: Option<String>)
    ensures
        match r {
            Some(p) => lines(stdout@).len() > 0 && p@ == trim(lines(stdout@)[0]),
            None => lines(stdout@).len() == 0,
        },
{
    let v = chars_of(stdout);
    let ls = split_lines(v.as_slice());
    if ls.len() == 0 {
        return None;
    }
    assert(views(ls@)[0] == ls@[0]@);
    let t = trim_vec(ls[0].as_slice());
    Some(string_of(t.as_slice()))
}

/// What the lookup hands back for `name`, given what was found for the
/// binary it was first asked for (`key`, `path`): that path when `name` is that
/// binary, else `name` itself.
pub fn cached_bin(found: &Option<(String, String)>, name: &str) -> (r: String)
    ensures
        r@ == match found {
            Some((key, path)) => if key@ == name@ { path@ } else { name@ },
            None => name@,
        },
{
    match found {
        Some((key, path)) => {
            if same_text(key.as_str(), name) {
                path.clone()
            } else {
                String::from_str(name)
            }
        },
        None => String::from_str(name),
    }
}

/// The places the binary is looked for, in the order they are tried.
#[derive(Clone, Copy, Debug)]
pub enum LookupStage {
    /// The path given by the override variable.
    Override,
    /// Inside the application bundle.
    Bundle,
    /// The project's own `bin/` folder.
    Project,
    /// The `bin` folder of the working folder.
    WorkingDir,
    /// What `which` finds on the `PATH`.
    SearchPath,
    /// The usual folders.
    System,
}

/// The stage tried after `s`, none after the usual folders.
pub open spec fn next_stage_of(s: LookupStage) -> Option<LookupStage> {
    match s {
        LookupStage::Override => Some(LookupStage::Bundle),
        LookupStage::Bundle => Some(LookupStage::Project),
        LookupStage::Project => Some(LookupStage::WorkingDir),
        LookupStage::WorkingDir => Some(LookupStage::SearchPath),
        LookupStage::SearchPath => Some(LookupStage::System),
        LookupStage::System => None,
    }
}

/// What to do after a stage of the lookup.
#[derive(Debug)]
pub enum LookupStep {
    /// The binary was found here: the search stops.
    Found(String),
    /// Nothing found yet: try this stage next.
    Next(LookupStage),
    /// Nothing found at any stage.
    NotFound,
}

/// The stage the lookup starts with.
pub fn first_stage() -> (r: LookupStage)
    ensures
        r == LookupStage::Override,
{
    LookupStage::Override
}

/// The step after stage `stage` found `found`: the search stops at the first
/// stage that finds the binary; otherwise it goes on with the next stage, and
/// gives up after the usual folders.
pub fn lookup_step(stage: LookupStage, found: Option<String>) -> (r: LookupStep)
    ensures
        match found {
            Some(p) => r matches LookupStep::Found(q) && q@ == p@,
            None => match next_stage_of(stage) {
                Some(n) => r matches LookupStep::Next(m) && m == n,
                None => r is NotFound,
            },
        },
{
    match found {
        Some(p) => LookupStep::Found(p),
        None => match stage {
            LookupStage::Override => LookupStep::Next(LookupStage::Bundle),
            LookupStage::Bundle => LookupStep::Next(LookupStage::Project),
            LookupStage::Project => LookupStep::Next(LookupStage::WorkingDir),
            LookupStage::WorkingDir => LookupStep::Next(LookupStage::SearchPath),
            LookupStage::SearchPath => LookupStep::Next(LookupStage::System),
            LookupStage::System => LookupStep::NotFound,
        },
    }
}

/// The stages in the order they are tried, from the first.
pub open spec fn stage_order() -> Seq<LookupStage> {
    seq![
        LookupStage::Override,
        LookupStage::Bundle,
        LookupStage::Project,
        LookupStage::WorkingDir,
        LookupStage::SearchPath,
        LookupStage::System,
    ]
}

/// Stepping from the first stage visits the stages in `stage_order`, each
/// once, and the last one has no successor.
pub proof fn lemma_stages_in_order()
    ensures
        stage_order()[0] == LookupStage::Override,
        forall|i: int| 0 <= i < 5 ==> next_stage_of(#[trigger] stage_order()[i]) == Some(stage_order()[i + 1]),
        next_stage_of(stage_order()[5]) is None,
{
}

} // verus!
