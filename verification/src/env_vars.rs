//! Matching of `{{…}}`-delimited variable references in a path string.

use vstd::prelude::*;

verus! {

/// One variable reference found in a path: its text and its byte span.
#[derive(Debug, Clone)]
pub struct EnvMatch {
    pub text: String,
    pub start: usize,
    pub end: usize,
}

/// The text and byte span of each variable reference of a path, in order:
/// what the brace pattern matches, a function of the path alone.
pub uninterp spec fn env_matches(s: Seq<char>) -> Seq<(Seq<char>, int, int)>;

/// The views of found matches.
pub open spec fn matches_of(ms: Seq<EnvMatch>) -> Seq<(Seq<char>, int, int)> {
    ms.map_values(|m: EnvMatch| (m.text@, m.start as int, m.end as int))
}

/// Relies on regex::Regex::find_iter with the fixed brace pattern, whose
/// non-overlapping leftmost matches depend on the path text alone; each
/// match's text is the matched substring, with its byte offsets.
#[verifier::external_body]
fn find_env_matches(path: &str) -> (r: Vec<EnvMatch>)
    ensures
        matches_of(r@) == env_matches(path@),
{
    regex::Regex::new(r"\{\{(([^}][^}]?|[^}]}?)*)\}\}").map(
        |re|
            re.find_iter(path).map(
                |m|
                    EnvMatch {
                        text: m.as_str().to_string(),
                        start: m.start(),
                        end: m.end(),
                    },
            ).collect(),
    ).unwrap_or(Vec::new())
}

/// Every `{{…}}` variable reference of the path, in order.
pub fn match_all_env_variables(path: &str) -> (r: Vec<EnvMatch>)
    ensures
        matches_of(r@) == env_matches(path@),
{
    find_env_matches(path)
}

/// Whether the path holds any `{{…}}` variable reference.
pub fn contains_env_variables(path: &str) -> (r: bool)
    ensures
        r == (env_matches(path@).len() > 0),
{
    let found = find_env_matches(path);
    proof {
        assert(matches_of(found@).len() == found@.len());
    }
    found.len() > 0
}

} // verus!
