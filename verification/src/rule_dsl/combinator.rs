//! Combinators applied to extracted values: `||` fallback, `##` regex
//! replacement and `!n` index exclusion.
use vstd::prelude::*;
use crate::regex_ops::{regex_compiles, regex_replace_all, replace_all_each};
use crate::rule_dsl::parser::{RuleToken, TokenView};
use crate::text::{chars_of, lemma_vec_push_deep_view, trim, trim_chars};

verus! {

/// `s` is empty or white space only.
pub open spec fn is_blank(s: Seq<char>) -> bool {
    trim(s).len() == 0
}

/// A result set with at least one non-blank value.
pub open spec fn has_content(r: Seq<Seq<char>>) -> bool {
    exists|i: int| 0 <= i < r.len() && !is_blank(#[trigger] r[i])
}

/// The first result set with content, or nothing.
pub open spec fn merge_fallback_spec(rs: Seq<Seq<Seq<char>>>) -> Seq<Seq<char>>
    decreases rs.len(),
{
    if rs.len() == 0 {
        seq![]
    } else if has_content(rs[0]) {
        rs[0]
    } else {
        merge_fallback_spec(rs.drop_first())
    }
}

/// Results after the combinator tokens among `tokens` are applied in order:
/// `||` keeps results that have content, `##` replaces, and an index token
/// (`.n` or `!n`) removes the value at that index.
pub open spec fn apply_combinators_spec(results: Seq<Seq<char>>, tokens: Seq<TokenView>) -> Seq<
    Seq<char>,
>
    decreases tokens.len(),
{
    if tokens.len() == 0 {
        results
    } else {
        let rest = tokens.drop_first();
        match tokens[0] {
            TokenView::Fallback => if has_content(results) {
                results
            } else {
                apply_combinators_spec(seq![], rest)
            },
            TokenView::RegexReplace(pattern, replacement) => {
                let next = if regex_compiles(pattern) {
                    Seq::new(
                        results.len(),
                        |i: int| regex_replace_all(pattern, results[i], replacement),
                    )
                } else {
                    results
                };
                apply_combinators_spec(next, rest)
            },
            TokenView::Index(n) => {
                let next = if n < results.len() {
                    results.remove(n as int)
                } else {
                    results
                };
                apply_combinators_spec(next, rest)
            },
            TokenView::ExcludeIndex(n) => {
                let next = if n < results.len() {
                    results.remove(n as int)
                } else {
                    results
                };
                apply_combinators_spec(next, rest)
            },
            _ => apply_combinators_spec(results, rest),
        }
    }
}

/// Law: each combinator does what its syntax says. `##pattern##replacement`
/// keeps the number of values and replaces within each one (all values are
/// kept as they are when the pattern does not compile); an index token
/// removes exactly the value at that index and keeps the others in order;
/// `||` after values with content returns them unchanged.
pub proof fn lemma_combinator_steps(
    results: Seq<Seq<char>>,
    n: usize,
    pattern: Seq<char>,
    replacement: Seq<char>,
    rest: Seq<TokenView>,
)
    ensures
        n < results.len() ==> apply_combinators_spec(results, seq![TokenView::ExcludeIndex(n)])
            == results.take(n as int) + results.skip(n + 1),
        n < results.len() ==> apply_combinators_spec(results, seq![TokenView::Index(n)])
            == results.take(n as int) + results.skip(n + 1),
        n >= results.len() ==> apply_combinators_spec(results, seq![TokenView::ExcludeIndex(n)])
            == results,
        ({
            let r = apply_combinators_spec(
                results,
                seq![TokenView::RegexReplace(pattern, replacement)],
            );
            &&& r.len() == results.len()
            &&& regex_compiles(pattern) ==> forall|i: int|
                0 <= i < r.len() ==> #[trigger] r[i] == regex_replace_all(pattern, results[i], replacement)
            &&& !regex_compiles(pattern) ==> r == results
        }),
        has_content(results) ==> apply_combinators_spec(results, seq![TokenView::Fallback] + rest)
            == results,
{
    assert(seq![TokenView::ExcludeIndex(n)].drop_first() =~= Seq::<TokenView>::empty());
    assert(seq![TokenView::Index(n)].drop_first() =~= Seq::<TokenView>::empty());
    assert(seq![TokenView::RegexReplace(pattern, replacement)].drop_first() =~= Seq::<TokenView>::empty());
    assert((seq![TokenView::Fallback] + rest)[0] == TokenView::Fallback);
    if n < results.len() {
        assert(results.remove(n as int) =~= results.take(n as int) + results.skip(n + 1));
        assert(apply_combinators_spec(results.remove(n as int), Seq::<TokenView>::empty())
            == results.remove(n as int));
    }
    assert(apply_combinators_spec(results, Seq::<TokenView>::empty()) == results);
    let replaced = Seq::new(
        results.len(),
        |i: int| regex_replace_all(pattern, results[i], replacement),
    );
    assert(apply_combinators_spec(replaced, Seq::<TokenView>::empty()) == replaced);
}

/// Law: `||` over result sets picks the first set that has content, and
/// gives nothing when none has.
pub proof fn lemma_merge_fallback_first_with_content(rs: Seq<Seq<Seq<char>>>)
    ensures
        (exists|k: int| 0 <= k < rs.len() && has_content(#[trigger] rs[k])) ==> exists|k: int|
            0 <= k < rs.len() && merge_fallback_spec(rs) == #[trigger] rs[k] && has_content(rs[k])
                && forall|j: int| 0 <= j < k ==> !has_content(#[trigger] rs[j]),
        (forall|k: int| 0 <= k < rs.len() ==> !has_content(#[trigger] rs[k])) ==> merge_fallback_spec(
            rs,
        ).len() == 0,
    decreases rs.len(),
{
    if rs.len() > 0 {
        let rest = rs.drop_first();
        lemma_merge_fallback_first_with_content(rest);
        if !has_content(rs[0]) {
            if exists|k: int| 0 <= k < rs.len() && has_content(#[trigger] rs[k]) {
                let k0 = choose|k: int| 0 <= k < rs.len() && has_content(#[trigger] rs[k]);
                assert(rest[k0 - 1] == rs[k0]);
                let k = choose|k: int|
                    0 <= k < rest.len() && merge_fallback_spec(rest) == #[trigger] rest[k] && has_content(rest[k])
                        && forall|j: int| 0 <= j < k ==> !has_content(#[trigger] rest[j]);
                assert(rs[k + 1] == rest[k]);
                assert forall|j: int| 0 <= j < k + 1 implies !has_content(#[trigger] rs[j]) by {
                    if j > 0 {
                        assert(rs[j] == rest[j - 1]);
                    }
                }
            }
            if forall|k: int| 0 <= k < rs.len() ==> !has_content(#[trigger] rs[k]) {
                assert forall|k: int| 0 <= k < rest.len() implies !has_content(#[trigger] rest[k]) by {
                    assert(rest[k] == rs[k + 1]);
                }
            }
        }
    }
}

pub fn is_blank_exec(s: &str) -> (b: bool)
    ensures
        b == is_blank(s@),
{
    trim_chars(&chars_of(s)).len() == 0
}

pub(crate) fn has_content_exec(r: &Vec<String>) -> (b: bool)
    ensures
        b == has_content(r.deep_view()),
{
    let mut i: usize = 0;
    while i < r.len()
        invariant
            i <= r@.len(),
            forall|k: int| 0 <= k < i ==> is_blank(#[trigger] r.deep_view()[k]),
        decreases r.len() - i,
    {
        if !is_blank_exec(r[i].as_str()) {
            assert(r.deep_view()[i as int] == r@[i as int]@);
            return true;
        }
        i += 1;
    }
    false
}

/// An element-wise copy of `v`.
pub fn clone_strings(v: &Vec<String>) -> (r: Vec<String>)
    ensures
        r.deep_view() == v.deep_view(),
{
    let mut r: Vec<String> = Vec::new();
    let mut i: usize = 0;
    while i < v.len()
        invariant
            i <= v@.len(),
            r.deep_view() == v.deep_view().take(i as int),
        decreases v.len() - i,
    {
        let s = v[i].clone();
        let ghost old_r = r;
        r.push(s);
        proof {
            lemma_vec_push_deep_view(old_r, r, s);
            assert(v.deep_view().take(i + 1) =~= v.deep_view().take(i as int).push(s@));
        }
        i += 1;
    }
    assert(v.deep_view().take(v@.len() as int) =~= v.deep_view());
    r
}

/// Apply a chain of rule tokens against extracted strings.
///
/// Handles `||` fallback, `##` regex replacement, and index exclusion: an
/// index token removes the value at that index. (Within a rule, `.n` means
/// "only index n" and is taken by the extractors, which is why a rule hands
/// the combinators its tokens without the `.n` ones; `!n` reaches them.)
pub fn apply_combinators(values: Vec<String>, tokens: &[RuleToken]) -> (r: Vec<String>)
    ensures
        r.deep_view() == apply_combinators_spec(values.deep_view(), tokens@.map_values(
            |t: RuleToken| t@,
        )),
{
    let ghost all = tokens@.map_values(|t: RuleToken| t@);
    let mut results = values;
    let mut i: usize = 0;
    assert(all.skip(0) =~= all);
    while i < tokens.len()
        invariant
            i <= tokens@.len(),
            all == tokens@.map_values(|t: RuleToken| t@),
            apply_combinators_spec(values.deep_view(), all) == apply_combinators_spec(
                results.deep_view(),
                all.skip(i as int),
            ),
        decreases tokens.len() - i,
    {
        assert(all.skip(i as int)[0] == tokens@[i as int]@);
        assert(all.skip(i as int).drop_first() =~= all.skip(i + 1));
        match &tokens[i] {
            RuleToken::Fallback => {
                if has_content_exec(&results) {
                    return results;
                }
                results.clear();
                assert(results.deep_view() =~= Seq::<Seq<char>>::empty());
            },
            RuleToken::RegexReplace { pattern, replacement } => {
                match replace_all_each(pattern.as_str(), &results, replacement.as_str()) {
                    Some(v) => {
                        assert(v.deep_view() =~= Seq::new(
                            results.deep_view().len(),
                            |k: int|
                                regex_replace_all(pattern@, results.deep_view()[k], replacement@),
                        ));
                        results = v;
                    },
                    None => {},
                }
            },
            RuleToken::Index(n) => {
                if *n < results.len() {
                    let ghost before = results.deep_view();
                    results.remove(*n);
                    assert(results.deep_view() =~= before.remove(*n as int));
                }
            },
            RuleToken::ExcludeIndex(n) => {
                if *n < results.len() {
                    let ghost before = results.deep_view();
                    results.remove(*n);
                    assert(results.deep_view() =~= before.remove(*n as int));
                }
            },
            _ => {},
        }
        i += 1;
    }
    results
}

/// Merge multiple rule result sets using `||` semantics:
/// Return the first non-empty set, or empty if all empty.
pub fn merge_fallback(results: &[Vec<String>]) -> (r: Vec<String>)
    ensures
        r.deep_view() == merge_fallback_spec(results@.map_values(|v: Vec<String>| v.deep_view())),
{
    let ghost all = results@.map_values(|v: Vec<String>| v.deep_view());
    let mut i: usize = 0;
    assert(all.skip(0) =~= all);
    while i < results.len()
        invariant
            i <= results@.len(),
            all == results@.map_values(|v: Vec<String>| v.deep_view()),
            merge_fallback_spec(all) == merge_fallback_spec(all.skip(i as int)),
        decreases results.len() - i,
    {
        assert(all.skip(i as int)[0] == results@[i as int].deep_view());
        assert(all.skip(i as int).drop_first() =~= all.skip(i + 1));
        if has_content_exec(&results[i]) {
            return clone_strings(&results[i]);
        }
        i += 1;
    }
    Vec::new()
}

} // verus!
