//! Cleaning up after earlier runs at start-up: which processes are left over
//! from them, and which scratch files they left behind.
use vstd::prelude::*;
use crate::text::{chars_of, trim, trim_vec, lines, split_lines, views, starts_with, ends_with, occurs_at};
use crate::number::{u32_text_value, parse_u32};
use crate::text::decimal;

verus! {

/// The process ids that `pgrep` listed, one per line (lines that do not read
/// as a `u32` once trimmed are passed over), except `me`.
pub open spec fn stale_pids_in(ls: Seq<Seq<char>>, me: u32) -> Seq<u32>
    decreases ls.len(),
{
    if ls.len() == 0 {
        seq![]
    } else {
        let rest = stale_pids_in(ls.drop_last(), me);
        match u32_text_value(trim(ls.last())) {
            Some(pid) => if pid == me { rest } else { rest.push(pid) },
            None => rest,
        }
    }
}

/// The running process is never among the instances to stop.
pub proof fn lemma_stale_pids_spare_me(ls: Seq<Seq<char>>, me: u32)
    ensures
        !stale_pids_in(ls, me).contains(me),
    decreases ls.len(),
{
    if ls.len() > 0 {
        lemma_stale_pids_spare_me(ls.drop_last(), me);
        let rest = stale_pids_in(ls.drop_last(), me);
        if let Some(pid) = u32_text_value(trim(ls.last())) {
            if pid != me {
                assert forall|i: int| 0 <= i < rest.push(pid).len() implies rest.push(pid)[i] != me by {
                    if i < rest.len() {
                        assert(rest.push(pid)[i] == rest[i]);
                    }
                }
            }
        }
    }
}

/// The earlier instances to stop, from the output of `pgrep` (see `stale_pids_in`).
pub fn stale_pids(pgrep_output: &str, me: u32) -> (r: Vec<u32>)
    ensures
        r@ == stale_pids_in(lines(pgrep_output@), me),
        !r@.contains(me),
{
    let all = chars_of(pgrep_output);
    let ls = split_lines(all.as_slice());
    let ghost lv = lines(pgrep_output@);
    let mut out: Vec<u32> = Vec::new();
    let mut i: usize = 0;
    assert(lv.take(0) =~= Seq::<Seq<char>>::empty());
    while i < ls.len()
        invariant
            i <= ls@.len(),
            views(ls@) == lv,
            out@ == stale_pids_in(lv.take(i as int), me),
        decreases ls@.len() - i,
    {
        assert(lv.take(i + 1).drop_last() =~= lv.take(i as int));
        assert(lv[i as int] == ls@[i as int]@);
        let t = trim_vec(ls[i].as_slice());
        match parse_u32(t.as_slice()) {
            Some(pid) => {
                if pid != me {
                    out.push(pid);
                }
            },
            None => {},
        }
        i = i + 1;
    }
    assert(lv.take(i as int) =~= lv);
    proof {
        lemma_stale_pids_spare_me(lv, me);
    }
    out
}

/// A scratch file left by an interrupted cut: `cola_seg_*.mp4`.
pub open spec fn is_scratch_name(name: Seq<char>) -> bool {
    occurs_at(name, "cola_seg_"@, 0) && name.len() >= 4 && occurs_at(name, ".mp4"@, name.len() - 4)
}

/// The scratch files of cuts (`cutting::scratch_name`) are the files that
/// clean-up removes.
pub proof fn lemma_scratch_files_cleaned(pid: nat, nanos: nat)
    ensures
        is_scratch_name("cola_seg_"@ + decimal(pid) + "_"@ + decimal(nanos) + ".mp4"@),
{
    reveal_strlit("cola_seg_");
    reveal_strlit("_");
    reveal_strlit(".mp4");
    let name = "cola_seg_"@ + decimal(pid) + "_"@ + decimal(nanos) + ".mp4"@;
    assert(name.subrange(0, 9) =~= "cola_seg_"@);
    assert(name.subrange(name.len() - 4, name.len() as int) =~= ".mp4"@);
}

/// Whether a file name is that of a scratch file (see `is_scratch_name`).
pub fn is_scratch_file(name: &str) -> (r: bool)
    ensures
        r == is_scratch_name(name@),
{
    proof {
        reveal_strlit("cola_seg_");
        reveal_strlit(".mp4");
    }
    let v = chars_of(name);
    let pre = chars_of("cola_seg_");
    let suf = chars_of(".mp4");
    starts_with(v.as_slice(), pre.as_slice()) && ends_with(v.as_slice(), suf.as_slice())
}

} // verus!
