//! Calls into the `regex` crate. Regular-expression matching is not spelled
//! out here: its results are named, and the logic around them is verified
//! against those names.
use vstd::prelude::*;

verus! {

/// What `regex::Regex::new(pattern)` followed by `Regex::captures(haystack)`
/// yields: `None` when the pattern does not compile; `Some(None)` when it
/// does not match; else the groups of the leftmost-first match (group 0 is the
/// whole match, a group that took no part is `None`).
pub uninterp spec fn regex_captures(pattern: Seq<char>, haystack: Seq<char>) -> Option<
    Option<Seq<Option<Seq<char>>>>,
>;

/// What `Regex::new(pattern)` followed by `Regex::captures_iter(haystack)`
/// yields: `None` when the pattern does not compile; else the groups of each
/// successive non-overlapping match, in order.
pub uninterp spec fn regex_captures_all(pattern: Seq<char>, haystack: Seq<char>) -> Option<
    Seq<Seq<Option<Seq<char>>>>,
>;

/// Whether `regex::Regex::new(pattern)` succeeds.
pub uninterp spec fn regex_compiles(pattern: Seq<char>) -> bool;

/// What `Regex::replace_all(haystack, replacement)` yields for a compiled
/// `pattern` (`$n` in `replacement` expanding to group `n`).
pub uninterp spec fn regex_replace_all(
    pattern: Seq<char>,
    haystack: Seq<char>,
    replacement: Seq<char>,
) -> Seq<char>;

/// Trusted: compiles `pattern` with `regex::Regex::new` and returns the groups
/// of `Regex::captures(haystack)` as owned strings; the contract names the
/// result and says nothing of regular-expression semantics.
#[verifier::external_body]
pub(crate) fn captures(pattern: &str, haystack: &str) -> (r: Option<Option<Vec<Option<String>>>>)
    ensures
        r.deep_view() == regex_captures(pattern@, haystack@),
        r is Some <==> regex_compiles(pattern@),
{
    let re = regex::Regex::new(pattern).ok()?;
    Some(
        re.captures(haystack).map(
            |caps| caps.iter().map(|m| m.map(|m| m.as_str().to_string())).collect(),
        ),
    )
}

/// Trusted: compiles `pattern` with `regex::Regex::new` and returns the groups
/// of every match of `Regex::captures_iter(haystack)`, in order; named result.
#[verifier::external_body]
pub(crate) fn captures_all(pattern: &str, haystack: &str) -> (r: Option<Vec<Vec<Option<String>>>>)
    ensures
        r.deep_view() == regex_captures_all(pattern@, haystack@),
        r is Some <==> regex_compiles(pattern@),
{
    let re = regex::Regex::new(pattern).ok()?;
    Some(
        re.captures_iter(haystack).map(
            |caps| caps.iter().map(|m| m.map(|m| m.as_str().to_string())).collect(),
        ).collect(),
    )
}

/// Trusted: compiles `pattern` once with `regex::Regex::new` (`None` when
/// that fails) and returns `Regex::replace_all(h, replacement)` for each
/// haystack `h`, in order; named result.
#[verifier::external_body]
pub(crate) fn replace_all_each(pattern: &str, haystacks: &Vec<String>, replacement: &str) -> (r: Option<
    Vec<String>,
>)
    ensures
        r is Some <==> regex_compiles(pattern@),
        r matches Some(v) ==> v@.len() == haystacks@.len() && forall|i: int|
            0 <= i < v@.len() ==> #[trigger] v@[i]@ == regex_replace_all(
                pattern@,
                haystacks@[i]@,
                replacement@,
            ),
{
    let re = regex::Regex::new(pattern).ok()?;
    Some(haystacks.iter().map(|h| re.replace_all(h, replacement).to_string()).collect())
}

/// Group 1 of a match, when the match exists and the group took part.
pub open spec fn group_one(caps: Option<Seq<Option<Seq<char>>>>) -> Option<Seq<char>> {
    match caps {
        Some(groups) => if groups.len() > 1 {
            groups[1]
        } else {
            None
        },
        None => None,
    }
}

/// Group 1 of a match, when the match exists and the group took part.
pub fn first_group(caps: Option<Vec<Option<String>>>) -> (r: Option<String>)
    ensures
        r.deep_view() == group_one(caps.deep_view()),
{
    match caps {
        Some(groups) => {
            if groups.len() > 1 {
                let mut groups = groups;
                let ghost gs = groups;
                let g = groups.swap_remove(1);
                assert(g.deep_view() == gs.deep_view()[1]);
                g
            } else {
                None
            }
        },
        None => None,
    }
}

} // verus!
