//! Ordering by name: the order of `String`s (by character code, position by
//! position, a prefix first), and sorting videos by their file names.
use vstd::prelude::*;
use crate::order::{is_stable_order, stable_order};
use crate::plan::VideoFile;
use crate::text::chars_of;

verus! {

/// `a` comes before `b` in the order of `String`s: at the first position
/// where they differ, `a` has the smaller character; or `a` is a proper
/// prefix of `b`. (UTF-8 keeps the order of character codes, so this is the
/// byte order `String` compares by.)
pub open spec fn text_lt(a: Seq<char>, b: Seq<char>) -> bool
    decreases a.len(),
{
    if a.len() == 0 {
        b.len() > 0
    } else if b.len() == 0 {
        false
    } else if a[0] != b[0] {
        (a[0] as int) < (b[0] as int)
    } else {
        text_lt(a.drop_first(), b.drop_first())
    }
}

/// No text comes before itself.
pub proof fn lemma_text_lt_irreflexive(a: Seq<char>)
    ensures
        !text_lt(a, a),
    decreases a.len(),
{
    if a.len() > 0 {
        lemma_text_lt_irreflexive(a.drop_first());
    }
}

/// The order is transitive.
pub proof fn lemma_text_lt_transitive(a: Seq<char>, b: Seq<char>, c: Seq<char>)
    requires
        text_lt(a, b),
        text_lt(b, c),
    ensures
        text_lt(a, c),
    decreases a.len(),
{
    if a.len() > 0 && b.len() > 0 && c.len() > 0 && a[0] == b[0] && b[0] == c[0] {
        lemma_text_lt_transitive(a.drop_first(), b.drop_first(), c.drop_first());
    }
}

/// Of two different texts, one comes before the other.
pub proof fn lemma_text_lt_total(a: Seq<char>, b: Seq<char>)
    requires
        a != b,
    ensures
        text_lt(a, b) || text_lt(b, a),
    decreases a.len(),
{
    if a.len() > 0 && b.len() > 0 {
        if a[0] == b[0] {
            if a.drop_first() == b.drop_first() {
                assert(a =~= seq![a[0]] + a.drop_first());
                assert(b =~= seq![b[0]] + b.drop_first());
            }
            lemma_text_lt_total(a.drop_first(), b.drop_first());
        }
    } else if a.len() == 0 && b.len() == 0 {
        assert(a =~= b);
    }
}

/// Whether `a` comes before `b` (see `text_lt`).
pub fn text_less(a: &[char], b: &[char]) -> (r: bool)
    ensures
        r == text_lt(a@, b@),
{
    let mut i: usize = 0;
    assert(a@.skip(0) =~= a@);
    assert(b@.skip(0) =~= b@);
    while i < a.len() && i < b.len() && a[i] == b[i]
        invariant
            i <= a@.len(),
            i <= b@.len(),
            text_lt(a@, b@) == text_lt(a@.skip(i as int), b@.skip(i as int)),
        decreases a@.len() - i,
    {
        assert(a@.skip(i as int).drop_first() =~= a@.skip(i + 1));
        assert(b@.skip(i as int).drop_first() =~= b@.skip(i + 1));
        i = i + 1;
    }
    if i == a.len() {
        i < b.len()
    } else if i == b.len() {
        false
    } else {
        a[i] < b[i]
    }
}

/// How many of `names` come before `x`.
pub open spec fn rank(names: Seq<Seq<char>>, x: Seq<char>) -> nat
    decreases names.len(),
{
    if names.len() == 0 {
        0
    } else {
        rank(names.drop_last(), x) + if text_lt(names.last(), x) { 1nat } else { 0nat }
    }
}

proof fn lemma_rank_monotone(names: Seq<Seq<char>>, a: Seq<char>, b: Seq<char>)
    requires
        text_lt(a, b),
    ensures
        rank(names, a) <= rank(names, b),
        names.contains(a) ==> rank(names, a) < rank(names, b),
    decreases names.len(),
{
    if names.len() > 0 {
        let init = names.drop_last();
        lemma_rank_monotone(init, a, b);
        if text_lt(names.last(), a) {
            lemma_text_lt_transitive(names.last(), a, b);
        }
        if names.last() == a {
            lemma_text_lt_irreflexive(a);
        }
        if names.contains(a) && names.last() != a {
            let k = choose|k: int| 0 <= k < names.len() && names[k] == a;
            assert(init[k] == a);
        }
    }
}

/// Sorting by rank sorts by name: of two names in the list, the one with the
/// smaller rank comes first, and equal ranks mean equal names.
pub proof fn lemma_rank_orders_names(names: Seq<Seq<char>>, a: Seq<char>, b: Seq<char>)
    requires
        names.contains(a),
        names.contains(b),
    ensures
        rank(names, a) < rank(names, b) <==> text_lt(a, b),
        rank(names, a) == rank(names, b) <==> a == b,
{
    lemma_text_lt_irreflexive(a);
    if a != b {
        lemma_text_lt_total(a, b);
        if text_lt(a, b) {
            lemma_rank_monotone(names, a, b);
        } else {
            lemma_rank_monotone(names, b, a);
        }
    }
}

/// The names of a list of videos.
pub open spec fn video_names(v: Seq<VideoFile>) -> Seq<Seq<char>> {
    v.map_values(|f: VideoFile| f.name@)
}

/// The rank of each video's name among all the names.
pub open spec fn name_ranks(names: Seq<Seq<char>>) -> Seq<i64> {
    names.map_values(|x: Seq<char>| rank(names, x) as i64)
}

fn rank_of(names: &Vec<Vec<char>>, x: &Vec<char>) -> (r: u64)
    requires
        names@.len() < u64::MAX,
    ensures
        r == rank(names@.map_values(|n: Vec<char>| n@), x@),
{
    let ghost nv = names@.map_values(|n: Vec<char>| n@);
    let mut count: u64 = 0;
    let mut i: usize = 0;
    while i < names.len()
        invariant
            i <= names@.len(),
            names@.len() < u64::MAX,
            nv == names@.map_values(|n: Vec<char>| n@),
            count == rank(nv.take(i as int), x@),
            count <= i,
        decreases names@.len() - i,
    {
        assert(nv.take(i + 1).drop_last() =~= nv.take(i as int));
        if text_less(names[i].as_slice(), x.as_slice()) {
            count = count + 1;
        }
        i = i + 1;
    }
    assert(nv.take(i as int) =~= nv);
    count
}

/// Sorts videos by file name, stably (what `sort_by` on the name gives): the
/// result lists the videos in the stable order of their ranks, and
/// `lemma_rank_orders_names` shows that order is the order of the names.
pub fn sort_videos_by_name(v: Vec<VideoFile>) -> (r: Vec<VideoFile>)
    requires
        v@.len() < i64::MAX,
    ensures
        exists|p: Seq<usize>| #[trigger] is_stable_order(name_ranks(video_names(v@)), p)
            && r@.len() == p.len()
            && forall|k: int| 0 <= k < p.len() ==> (#[trigger] r@[k]).name@ == v@[p[k] as int].name@
                && r@[k].path@ == v@[p[k] as int].path@ && r@[k].size == v@[p[k] as int].size
                && r@[k].duration == v@[p[k] as int].duration,
        forall|i: int, j: int| 0 <= i < j < r@.len() ==> !text_lt(#[trigger] r@[j].name@, #[trigger] r@[i].name@),
{
    let ghost names = video_names(v@);
    let mut nv: Vec<Vec<char>> = Vec::new();
    let mut i: usize = 0;
    while i < v.len()
        invariant
            i <= v@.len(),
            names == video_names(v@),
            nv@.map_values(|n: Vec<char>| n@) == names.take(i as int),
        decreases v@.len() - i,
    {
        let c = chars_of(v[i].name.as_str());
        let ghost before = nv@;
        nv.push(c);
        assert(names[i as int] == v@[i as int].name@);
        assert(nv@.map_values(|n: Vec<char>| n@) =~= before.map_values(|n: Vec<char>| n@).push(c@));
        assert(names.take(i + 1) =~= names.take(i as int).push(names[i as int]));
        i = i + 1;
    }
    assert(names.take(i as int) =~= names);
    let mut keys: Vec<i64> = Vec::new();
    let mut j: usize = 0;
    while j < nv.len()
        invariant
            j <= nv@.len(),
            nv@.len() == v@.len(),
            v@.len() < i64::MAX,
            nv@.map_values(|n: Vec<char>| n@) == names,
            keys@ == name_ranks(names).take(j as int),
        decreases nv@.len() - j,
    {
        let k = rank_of(&nv, &nv[j]);
        proof {
            lemma_rank_bounded(names, nv@[j as int]@);
        }
        keys.push(k as i64);
        j = j + 1;
        assert(keys@ =~= name_ranks(names).take(j as int));
    }
    assert(keys@ =~= name_ranks(names));
    let p = stable_order(&keys);
    let mut v = v;
    let mut r: Vec<VideoFile> = Vec::new();
    let mut k: usize = 0;
    while k < p.len()
        invariant
            k <= p@.len(),
            is_stable_order(keys@, p@),
            keys@.len() == v@.len(),
            r@.len() == k,
            forall|m: int| 0 <= m < k ==> (#[trigger] r@[m]).name@ == v@[p@[m] as int].name@
                && r@[m].path@ == v@[p@[m] as int].path@ && r@[m].size == v@[p@[m] as int].size
                && r@[m].duration == v@[p@[m] as int].duration,
        decreases p@.len() - k,
    {
        let idx = p[k];
        assert(p@[k as int] < keys@.len());
        let f = VideoFile {
            path: v[idx].path.clone(),
            name: v[idx].name.clone(),
            size: v[idx].size,
            duration: v[idx].duration,
        };
        r.push(f);
        k = k + 1;
    }
    proof {
        assert forall|i: int, j: int| 0 <= i < j < r@.len() implies !text_lt(#[trigger] r@[j].name@, #[trigger] r@[i].name@) by {
            let a = p@[i] as int;
            let b = p@[j] as int;
            assert(names[a] == r@[i].name@);
            assert(names[b] == r@[j].name@);
            assert(names.contains(names[a]));
            assert(names.contains(names[b]));
            lemma_rank_orders_names(names, names[a], names[b]);
            lemma_rank_orders_names(names, names[b], names[a]);
            lemma_rank_bounded(names, names[a]);
            lemma_rank_bounded(names, names[b]);
            assert(keys@[a] == rank(names, names[a]) as i64);
            assert(keys@[b] == rank(names, names[b]) as i64);
        }
    }
    r
}

proof fn lemma_rank_bounded(names: Seq<Seq<char>>, x: Seq<char>)
    ensures
        rank(names, x) <= names.len(),
    decreases names.len(),
{
    if names.len() > 0 {
        lemma_rank_bounded(names.drop_last(), x);
    }
}

} // verus!
