//! Extraction of text or attribute values from HTML with rule tokens.
//!
//! Each selector step re-parses the matched elements' HTML, so that every
//! step works on plain strings.
use vstd::prelude::*;
use crate::html::{
    css_selector_parses, fragment_child_texts, fragment_inner_html, fragment_text,
    html_child_texts, html_inner, html_select_parts, html_text, select_parts,
};
use crate::rule_dsl::parser::{RuleToken, TokenView};
use crate::text::{chars_of, concat, eq_exec, extend, lemma_vec_push_deep_view, string_of};

verus! {

// ───────────────────────────── specifications ─────────────────────────────

/// The serialized outer HTML (`ElementRef::html`) of each matched element.
pub open spec fn outer_htmls(parts: Seq<(Seq<char>, Seq<(Seq<char>, Seq<char>)>, Seq<char>)>) -> Seq<
    Seq<char>,
> {
    Seq::new(parts.len(), |i: int| parts[i].2)
}

pub open spec fn select_each(snippets: Seq<Seq<char>>, selector: Seq<char>) -> Seq<Seq<char>>
    decreases snippets.len(),
{
    if snippets.len() == 0 {
        seq![]
    } else {
        select_each(snippets.drop_last(), selector) + outer_htmls(
            html_select_parts(snippets.last(), selector),
        )
    }
}

/// The outer HTML of the matched elements of every snippet; nothing when the
/// selector does not parse.
pub open spec fn select_all_spec(snippets: Seq<Seq<char>>, selector: Seq<char>) -> Seq<Seq<char>> {
    if css_selector_parses(selector) {
        select_each(snippets, selector)
    } else {
        seq![]
    }
}

/// The texts of the text nodes among `children`, joined.
pub open spec fn join_texts(children: Seq<Option<Seq<char>>>) -> Seq<char>
    decreases children.len(),
{
    if children.len() == 0 {
        seq![]
    } else {
        join_texts(children.drop_last()) + match children.last() {
            Some(t) => t,
            None => seq![],
        }
    }
}

/// The value of the first attribute named `name`, if any.
pub open spec fn attr_lookup(attrs: Seq<(Seq<char>, Seq<char>)>, name: Seq<char>) -> Option<Seq<char>>
    decreases attrs.len(),
{
    if attrs.len() == 0 {
        None
    } else if attrs[0].0 == name {
        Some(attrs[0].1)
    } else {
        attr_lookup(attrs.drop_first(), name)
    }
}

/// Attribute `attr` of the first element (selector `*`) of a snippet.
pub open spec fn first_attr(snippet: Seq<char>, attr: Seq<char>) -> Option<Seq<char>> {
    let parts = html_select_parts(snippet, "*"@);
    if css_selector_parses("*"@) && parts.len() > 0 {
        attr_lookup(parts[0].1, attr)
    } else {
        None
    }
}

/// Attribute `attr` of the first element of each snippet that has one.
pub open spec fn first_attrs(snippets: Seq<Seq<char>>, attr: Seq<char>) -> Seq<Seq<char>>
    decreases snippets.len(),
{
    if snippets.len() == 0 {
        seq![]
    } else {
        first_attrs(snippets.drop_last(), attr) + match first_attr(snippets.last(), attr) {
            Some(v) => seq![v],
            None => seq![],
        }
    }
}

/// What the tokens extract from the current snippets: locators narrow,
/// an index keeps one snippet, the first extractor ends the chain.
pub open spec fn html_extract_spec(current: Seq<Seq<char>>, tokens: Seq<TokenView>) -> Seq<
    Seq<char>,
>
    decreases tokens.len(),
{
    if tokens.len() == 0 {
        current
    } else {
        let rest = tokens.drop_first();
        match tokens[0] {
            TokenView::CssClass(c) => html_extract_spec(select_all_spec(current, "."@ + c), rest),
            TokenView::CssId(id) => html_extract_spec(select_all_spec(current, "#"@ + id), rest),
            TokenView::TagName(t) => html_extract_spec(select_all_spec(current, t), rest),
            TokenView::CssOverride(css) => html_extract_spec(select_all_spec(current, css), rest),
            TokenView::TagShort(t) => html_extract_spec(select_all_spec(current, t), rest),
            TokenView::Index(n) => html_extract_spec(
                if n < current.len() {
                    seq![current[n as int]]
                } else {
                    seq![]
                },
                rest,
            ),
            TokenView::Text => Seq::new(current.len(), |i: int| html_text(current[i])),
            TokenView::TextNodes => Seq::new(
                current.len(),
                |i: int| join_texts(html_child_texts(current[i])),
            ),
            TokenView::Href => first_attrs(current, "href"@),
            TokenView::Html => Seq::new(current.len(), |i: int| html_inner(current[i])),
            TokenView::Src => first_attrs(current, "src"@),
            _ => html_extract_spec(current, rest),
        }
    }
}

// ───────────────────────────── laws ─────────────────────────────

/// What `attr_lookup` finds is an attribute of that name, and it finds one
/// whenever there is one.
proof fn lemma_attr_lookup(attrs: Seq<(Seq<char>, Seq<char>)>, name: Seq<char>)
    ensures
        attr_lookup(attrs, name) matches Some(v) ==> exists|i: int|
            0 <= i < attrs.len() && #[trigger] attrs[i] == (name, v),
        (exists|i: int| 0 <= i < attrs.len() && (#[trigger] attrs[i]).0 == name) ==> attr_lookup(
            attrs,
            name,
        ) is Some,
    decreases attrs.len(),
{
    if attrs.len() > 0 {
        let rest = attrs.drop_first();
        lemma_attr_lookup(rest, name);
        if attrs[0].0 != name {
            if let Some(v) = attr_lookup(attrs, name) {
                let i = choose|i: int| 0 <= i < rest.len() && #[trigger] rest[i] == (name, v);
                assert(attrs[i + 1] == (name, v));
            }
            if exists|i: int| 0 <= i < attrs.len() && (#[trigger] attrs[i]).0 == name {
                let i = choose|i: int| 0 <= i < attrs.len() && (#[trigger] attrs[i]).0 == name;
                assert(rest[i - 1].0 == name);
            }
        } else {
            assert(attrs[0] == (name, attrs[0].1));
        }
    }
}

/// Law: `@href` and `@src` read the first element of a snippet in document
/// order (the element the snippet is the outer HTML of): the value is one of
/// that element's attributes of that name, there is a value whenever it has
/// one, and what lies inside the element does not matter: two snippets whose
/// first elements carry the same attributes give the same value.
pub proof fn lemma_first_attr_reads_first_element(s1: Seq<char>, s2: Seq<char>, a: Seq<char>)
    requires
        css_selector_parses("*"@),
        html_select_parts(s1, "*"@).len() > 0,
        html_select_parts(s2, "*"@).len() > 0,
    ensures
        ({
            let attrs = html_select_parts(s1, "*"@)[0].1;
            &&& first_attr(s1, a) matches Some(v) ==> exists|i: int|
                0 <= i < attrs.len() && #[trigger] attrs[i] == (a, v)
            &&& (exists|i: int| 0 <= i < attrs.len() && (#[trigger] attrs[i]).0 == a) ==> first_attr(s1, a) is Some
            &&& html_select_parts(s2, "*"@)[0].1 == attrs ==> first_attr(s1, a) == first_attr(s2, a)
        }),
{
    lemma_attr_lookup(html_select_parts(s1, "*"@)[0].1, a);
}

/// Law: `.n` keeps only the `n`-th snippet (none when there are fewer), and
/// `@text` gives one text per snippet, in order; so `….n@text` is the text
/// of the `n`-th match alone.
pub proof fn lemma_index_then_text(cur: Seq<Seq<char>>, n: usize, rest: Seq<TokenView>)
    ensures
        ({
            let r = html_extract_spec(cur, seq![TokenView::Text] + rest);
            &&& r.len() == cur.len()
            &&& forall|i: int| 0 <= i < r.len() ==> #[trigger] r[i] == html_text(cur[i])
        }),
        html_extract_spec(cur, seq![TokenView::Index(n), TokenView::Text]) == if n < cur.len() {
            seq![html_text(cur[n as int])]
        } else {
            Seq::<Seq<char>>::empty()
        },
{
    assert((seq![TokenView::Text] + rest)[0] == TokenView::Text);
    let ts = seq![TokenView::Index(n), TokenView::Text];
    assert(ts.drop_first() =~= seq![TokenView::Text]);
    if n < cur.len() {
        assert(html_extract_spec(seq![cur[n as int]], seq![TokenView::Text]) =~= seq![
            html_text(cur[n as int]),
        ]);
    } else {
        assert(html_extract_spec(Seq::<Seq<char>>::empty(), seq![TokenView::Text])
            =~= Seq::<Seq<char>>::empty());
    }
}

// ───────────────────────────── executable ─────────────────────────────

fn push_string(results: &mut Vec<String>, s: String)
    ensures
        final(results).deep_view() == old(results).deep_view().push(s@),
{
    let ghost before = *results;
    results.push(s);
    proof {
        lemma_vec_push_deep_view(before, *results, s);
    }
}

/// Apply a CSS selector to each HTML snippet, returning the outer HTML of
/// the matched elements (all attributes kept).
fn apply_selector_all(snippets: &Vec<String>, selector: &str) -> (r: Vec<String>)
    ensures
        r.deep_view() == select_all_spec(snippets.deep_view(), selector@),
{
    let ghost sv = snippets.deep_view();
    let mut results: Vec<String> = Vec::new();
    let mut i: usize = 0;
    assert(sv.take(0) =~= Seq::<Seq<char>>::empty());
    assert(results.deep_view() =~= Seq::<Seq<char>>::empty());
    if snippets.len() == 0 {
        assert(select_each(sv, selector@) =~= Seq::<Seq<char>>::empty());
        return results;
    }
    while i < snippets.len()
        invariant
            i <= snippets@.len(),
            sv == snippets.deep_view(),
            i > 0 ==> css_selector_parses(selector@),
            results.deep_view() == select_each(sv.take(i as int), selector@),
        decreases snippets.len() - i,
    {
        assert(sv.take(i + 1).drop_last() =~= sv.take(i as int));
        assert(sv[i as int] == snippets@[i as int]@);
        let parts = match select_parts(snippets[i].as_str(), selector) {
            Some(p) => p,
            None => {
                return Vec::new();
            },
        };
        let ghost pv = parts.deep_view();
        let ghost base = results.deep_view();
        let mut k: usize = 0;
        while k < parts.len()
            invariant
                k <= parts@.len(),
                pv == parts.deep_view(),
                results.deep_view() == base + outer_htmls(pv).take(k as int),
            decreases parts.len() - k,
        {
            let (tag, attrs, outer) = &parts[k];
            assert(pv[k as int] == (tag@, attrs.deep_view(), outer@));
            let o = string_of(&chars_of(outer.as_str()));
            push_string(&mut results, o);
            assert(outer_htmls(pv).take(k + 1) =~= outer_htmls(pv).take(k as int).push(o@));
            k += 1;
        }
        assert(outer_htmls(pv).take(parts@.len() as int) =~= outer_htmls(pv));
        i += 1;
    }
    assert(sv.take(snippets@.len() as int) =~= sv);
    results
}

fn join_texts_exec(children: &Vec<Option<String>>) -> (r: String)
    ensures
        r@ == join_texts(children.deep_view()),
{
    let ghost cv = children.deep_view();
    let mut out: Vec<char> = Vec::new();
    let mut i: usize = 0;
    assert(cv.take(0) =~= Seq::<Option<Seq<char>>>::empty());
    while i < children.len()
        invariant
            i <= children@.len(),
            cv == children.deep_view(),
            out@ == join_texts(cv.take(i as int)),
        decreases children.len() - i,
    {
        assert(cv.take(i + 1).drop_last() =~= cv.take(i as int));
        assert(cv[i as int] == children@[i as int].deep_view());
        match &children[i] {
            Some(t) => {
                extend(&mut out, &chars_of(t.as_str()));
            },
            None => {},
        }
        assert(out@ =~= join_texts(cv.take(i + 1)));
        i += 1;
    }
    assert(cv.take(children@.len() as int) =~= cv);
    string_of(&out)
}

pub(crate) fn attr_lookup_exec(attrs: &Vec<(String, String)>, name: &str) -> (r: Option<String>)
    ensures
        r.deep_view() == attr_lookup(attrs.deep_view(), name@),
{
    let ghost av = attrs.deep_view();
    let n = chars_of(name);
    let mut i: usize = 0;
    assert(av.skip(0) =~= av);
    while i < attrs.len()
        invariant
            i <= attrs@.len(),
            av == attrs.deep_view(),
            n@ == name@,
            attr_lookup(av, name@) == attr_lookup(av.skip(i as int), name@),
        decreases attrs.len() - i,
    {
        let (k, v) = &attrs[i];
        assert(av.skip(i as int)[0] == (k@, v@));
        assert(av.skip(i as int).drop_first() =~= av.skip(i + 1));
        if eq_exec(&chars_of(k.as_str()), &n) {
            return Some(string_of(&chars_of(v.as_str())));
        }
        i += 1;
    }
    None
}

fn first_attr_exec(snippet: &str, attr: &str) -> (r: Option<String>)
    ensures
        r.deep_view() == first_attr(snippet@, attr@),
{
    match select_parts(snippet, "*") {
        Some(parts) => {
            if parts.len() > 0 {
                assert(parts.deep_view()[0].1 == parts@[0].1.deep_view());
                attr_lookup_exec(&parts[0].1, attr)
            } else {
                None
            }
        },
        None => None,
    }
}

fn first_attrs_exec(snippets: &Vec<String>, attr: &str) -> (r: Vec<String>)
    ensures
        r.deep_view() == first_attrs(snippets.deep_view(), attr@),
{
    let ghost sv = snippets.deep_view();
    let mut results: Vec<String> = Vec::new();
    let mut i: usize = 0;
    assert(sv.take(0) =~= Seq::<Seq<char>>::empty());
    assert(results.deep_view() =~= Seq::<Seq<char>>::empty());
    while i < snippets.len()
        invariant
            i <= snippets@.len(),
            sv == snippets.deep_view(),
            results.deep_view() == first_attrs(sv.take(i as int), attr@),
        decreases snippets.len() - i,
    {
        assert(sv.take(i + 1).drop_last() =~= sv.take(i as int));
        assert(sv[i as int] == snippets@[i as int]@);
        match first_attr_exec(snippets[i].as_str(), attr) {
            Some(v) => {
                push_string(&mut results, v);
            },
            None => {},
        }
        assert(results.deep_view() =~= first_attrs(sv.take(i + 1), attr@));
        i += 1;
    }
    assert(sv.take(snippets@.len() as int) =~= sv);
    results
}

/// One string per snippet: its text (`which == 0`), the text of its direct
/// text nodes (`which == 1`) or its inner HTML (`which == 2`).
fn map_snippets(snippets: &Vec<String>, which: u8) -> (r: Vec<String>)
    requires
        which < 3,
    ensures
        r.deep_view() == Seq::new(
            snippets@.len(),
            |i: int|
                if which == 0 {
                    html_text(snippets@[i]@)
                } else if which == 1 {
                    join_texts(html_child_texts(snippets@[i]@))
                } else {
                    html_inner(snippets@[i]@)
                },
        ),
{
    let mut results: Vec<String> = Vec::new();
    let mut i: usize = 0;
    while i < snippets.len()
        invariant
            i <= snippets@.len(),
            which < 3,
            results.deep_view() == Seq::new(
                i as nat,
                |j: int|
                    if which == 0 {
                        html_text(snippets@[j]@)
                    } else if which == 1 {
                        join_texts(html_child_texts(snippets@[j]@))
                    } else {
                        html_inner(snippets@[j]@)
                    },
            ),
        decreases snippets.len() - i,
    {
        let s = snippets[i].as_str();
        let v = if which == 0 {
            fragment_text(s)
        } else if which == 1 {
            join_texts_exec(&fragment_child_texts(s))
        } else {
            fragment_inner_html(s)
        };
        push_string(&mut results, v);
        assert(results.deep_view() =~= Seq::new(
            (i + 1) as nat,
            |j: int|
                if which == 0 {
                    html_text(snippets@[j]@)
                } else if which == 1 {
                    join_texts(html_child_texts(snippets@[j]@))
                } else {
                    html_inner(snippets@[j]@)
                },
        ));
        i += 1;
    }
    results
}

/// Extract text or attribute values from an HTML string using rule tokens.
pub fn extract(html: &str, tokens: &[RuleToken]) -> (r: Vec<String>)
    ensures
        r.deep_view() == html_extract_spec(seq![html@], tokens@.map_values(|t: RuleToken| t@)),
{
    let ghost tv = tokens@.map_values(|t: RuleToken| t@);
    let mut current: Vec<String> = Vec::new();
    push_string(&mut current, string_of(&chars_of(html)));
    assert(current.deep_view() =~= seq![html@]);
    let mut i: usize = 0;
    assert(tv.skip(0) =~= tv);
    while i < tokens.len()
        invariant
            i <= tokens@.len(),
            tv == tokens@.map_values(|t: RuleToken| t@),
            html_extract_spec(seq![html@], tv) == html_extract_spec(
                current.deep_view(),
                tv.skip(i as int),
            ),
        decreases tokens.len() - i,
    {
        assert(tv.skip(i as int)[0] == tokens@[i as int]@);
        assert(tv.skip(i as int).drop_first() =~= tv.skip(i + 1));
        let ghost cv = current.deep_view();
        match &tokens[i] {
            RuleToken::CssClass(class) => {
                let sel = string_of(&concat(&chars_of("."), &chars_of(class.as_str())));
                current = apply_selector_all(&current, sel.as_str());
            },
            RuleToken::CssId(id) => {
                let sel = string_of(&concat(&chars_of("#"), &chars_of(id.as_str())));
                current = apply_selector_all(&current, sel.as_str());
            },
            RuleToken::TagName(tag) => {
                current = apply_selector_all(&current, tag.as_str());
            },
            RuleToken::CssOverride(css) => {
                current = apply_selector_all(&current, css.as_str());
            },
            RuleToken::TagShort(tag) => {
                current = apply_selector_all(&current, tag.as_str());
            },
            RuleToken::Index(n) => {
                if *n < current.len() {
                    let kept = current[*n].clone();
                    let mut next: Vec<String> = Vec::new();
                    push_string(&mut next, kept);
                    assert(next.deep_view() =~= seq![cv[*n as int]]);
                    current = next;
                } else {
                    current = Vec::new();
                    assert(current.deep_view() =~= Seq::<Seq<char>>::empty());
                }
            },
            RuleToken::Text => {
                let r = map_snippets(&current, 0);
                assert(r.deep_view() =~= html_extract_spec(cv, tv.skip(i as int)));
                return r;
            },
            RuleToken::TextNodes => {
                let r = map_snippets(&current, 1);
                assert(r.deep_view() =~= html_extract_spec(cv, tv.skip(i as int)));
                return r;
            },
            RuleToken::Href => {
                return first_attrs_exec(&current, "href");
            },
            RuleToken::Html => {
                let r = map_snippets(&current, 2);
                assert(r.deep_view() =~= html_extract_spec(cv, tv.skip(i as int)));
                return r;
            },
            RuleToken::Src => {
                return first_attrs_exec(&current, "src");
            },
            _ => {},
        }
        i += 1;
    }
    current
}

} // verus!
