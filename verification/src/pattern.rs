//! Regular-expression matching through the `regex` crate.
use vstd::prelude::*;

verus! {

/// The text of capture group `group` in the leftmost match of the regular
/// expression `pattern` in `text` (`regex` crate semantics), if the pattern
/// compiles, matches, and the group took part in the match.
pub uninterp spec fn regex_capture(pattern: Seq<char>, text: Seq<char>, group: nat) -> Option<Seq<char>>;

/// Compiles `pattern` with `regex::Regex::new` and returns the text of group
/// `group` of `Regex::captures` on `text`. The result is named by
/// `regex_capture`; nothing more is stated of it.
#[verifier::external_body]
pub fn capture(pattern: &str, text: &str, group: usize) -> (r: Option<String>)
    ensures
        match r {
            Some(s) => regex_capture(pattern@, text@, group as nat) == Some(s@),
            None => regex_capture(pattern@, text@, group as nat) is None,
        },
{
    let re = regex::Regex::new(pattern).ok()?;
    re.captures(text).and_then(|c| c.get(group)).map(|m| m.as_str().to_string())
}

} // verus!
