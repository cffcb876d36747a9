//! The Legado rule DSL: parsing rules and applying them to HTML or JSON.
pub mod combinator;
pub mod html_extractor;
pub mod json_extractor;
pub mod parser;

use vstd::prelude::*;
use crate::json::{json_parse, parse_json, JsonValue};
use crate::rule_dsl::combinator::{
    apply_combinators, apply_combinators_spec, clone_strings, has_content, has_content_exec,
    is_blank, is_blank_exec,
};
use crate::rule_dsl::html_extractor::html_extract_spec;
use crate::rule_dsl::json_extractor::json_extract_spec;
use crate::rule_dsl::parser::{
    accepts_rule, tokenize, tokenize_accepts, tokenize_spec, RuleToken, TokenView,
};
use crate::text::{chars_of, contains, contains_exec, lemma_vec_push_deep_view, string_of};
use crate::types::SearchRule;

verus! {

// ───────────────────────────── specifications ─────────────────────────────

/// Raw values one `||` alternative extracts from content (JSON when the
/// content type says so, else HTML), before its combinators.
pub open spec fn segment_raw(content: Seq<char>, content_type: Seq<char>, seg: Seq<TokenView>) -> Seq<
    Seq<char>,
> {
    if contains(content_type, "json"@) {
        match json_parse(content) {
            Some(json) => json_extract_spec(json, seg),
            None => seq![],
        }
    } else {
        html_extract_spec(seq![content], seg)
    }
}

/// The tokens of an alternative without its `.n` index tokens, which the
/// extractor has already taken.
pub open spec fn without_takes(ts: Seq<TokenView>) -> Seq<TokenView>
    decreases ts.len(),
{
    if ts.len() == 0 {
        seq![]
    } else {
        without_takes(ts.drop_last()) + if ts.last() is Index {
            seq![]
        } else {
            seq![ts.last()]
        }
    }
}

/// The values of one `||` alternative: extracted (`.n` taking index `n`),
/// then its `##` replacements and `!n` exclusions applied.
pub open spec fn segment_values(content: Seq<char>, content_type: Seq<char>, seg: Seq<TokenView>) -> Seq<
    Seq<char>,
> {
    apply_combinators_spec(segment_raw(content, content_type, seg), without_takes(seg))
}

/// `||` fallback: `seg` is the alternative read so far, `rest` the tokens
/// after it. The first alternative whose values have content wins; when none
/// has, the last alternative's values stand.
pub open spec fn fallback_values(
    content: Seq<char>,
    content_type: Seq<char>,
    seg: Seq<TokenView>,
    rest: Seq<TokenView>,
) -> Seq<Seq<char>>
    decreases rest.len(),
{
    if rest.len() == 0 {
        segment_values(content, content_type, seg)
    } else if rest[0] is Fallback {
        let v = segment_values(content, content_type, seg);
        if has_content(v) {
            v
        } else {
            fallback_values(content, content_type, seq![], rest.drop_first())
        }
    } else {
        fallback_values(content, content_type, seg.push(rest[0]), rest.drop_first())
    }
}

/// The values a rule extracts from content.
pub open spec fn rule_values_spec(content: Seq<char>, content_type: Seq<char>, rule: Seq<char>) -> Seq<
    Seq<char>,
> {
    fallback_values(content, content_type, seq![], tokenize_spec(rule))
}

/// Values a non-empty rule extracts; nothing otherwise.
pub open spec fn apply_extract_spec(content: Seq<char>, content_type: Seq<char>, rule: Option<Seq<char>>) -> Seq<
    Seq<char>,
> {
    match rule {
        Some(r) => if r.len() > 0 {
            rule_values_spec(content, content_type, r)
        } else {
            seq![]
        },
        None => seq![],
    }
}

pub open spec fn first_or_empty(v: Seq<Seq<char>>) -> Seq<char> {
    if v.len() > 0 {
        v[0]
    } else {
        seq![]
    }
}

/// `[name, author, bookUrl, coverUrl]` of one list item.
pub open spec fn item_row(item: Seq<char>, content_type: Seq<char>, rule: SearchRule) -> Seq<Seq<char>> {
    seq![
        first_or_empty(apply_extract_spec(item, content_type, rule.name.deep_view())),
        first_or_empty(apply_extract_spec(item, content_type, rule.author.deep_view())),
        first_or_empty(apply_extract_spec(item, content_type, rule.bookUrl.deep_view())),
        first_or_empty(apply_extract_spec(item, content_type, rule.coverUrl.deep_view())),
    ]
}

pub open spec fn extract_results_spec(content: Seq<char>, content_type: Seq<char>, rule: SearchRule) -> Seq<
    Seq<Seq<char>>,
> {
    match rule.bookList {
        None => seq![],
        Some(book_list) => {
            let items = rule_values_spec(content, content_type, book_list@);
            Seq::new(items.len(), |i: int| item_row(items[i], content_type, rule))
        },
    }
}

pub open spec fn opt_rule_accepted(rule: Option<String>) -> bool {
    rule matches Some(r) ==> tokenize_accepts(r@)
}

/// The item rules (`name`, `author`, `bookUrl`, `coverUrl`) are accepted.
pub open spec fn item_rules_accepted(rule: SearchRule) -> bool {
    &&& opt_rule_accepted(rule.name)
    &&& opt_rule_accepted(rule.author)
    &&& opt_rule_accepted(rule.bookUrl)
    &&& opt_rule_accepted(rule.coverUrl)
}

/// Every rule `extract_results` tokenizes on `content` is accepted: the list
/// rule always, the item rules only when the list has items.
pub open spec fn extract_results_accepts(content: Seq<char>, content_type: Seq<char>, rule: SearchRule) -> bool {
    match rule.bookList {
        None => true,
        Some(bl) => tokenize_accepts(bl@) && (rule_values_spec(content, content_type, bl@).len() > 0
            ==> item_rules_accepted(rule)),
    }
}

/// Some row has a name or an author that is not blank.
pub open spec fn has_valid_results_spec(results: Seq<Seq<Seq<char>>>) -> bool {
    exists|i: int|
        0 <= i < results.len() && #[trigger] results[i].len() >= 2 && (!is_blank(results[i][0])
            || !is_blank(results[i][1]))
}

// ───────────────────────────── laws ─────────────────────────────

/// A result cell holds the first value its rule extracted, or is empty when
/// the rule extracted nothing.
pub open spec fn cell_from(cell: Seq<char>, values: Seq<Seq<char>>) -> bool {
    &&& values.len() > 0 ==> cell == values[0]
    &&& values.len() == 0 ==> cell.len() == 0
}

/// Law: a search response gives one row per list item, in order, and each
/// row is `[name, author, bookUrl, coverUrl]`, each cell taken from what its
/// own rule extracts from that item; an absent rule leaves its cell empty.
/// Without a list rule there are no rows.
pub proof fn lemma_result_columns(content: Seq<char>, content_type: Seq<char>, rule: SearchRule)
    ensures
        rule.bookList is None ==> extract_results_spec(content, content_type, rule).len() == 0,
        rule.bookList matches Some(bl) ==> ({
            let items = rule_values_spec(content, content_type, bl@);
            let r = extract_results_spec(content, content_type, rule);
            &&& r.len() == items.len()
            &&& forall|i: int| 0 <= i < r.len() ==> {
                &&& (#[trigger] r[i]).len() == 4
                &&& cell_from(r[i][0], apply_extract_spec(items[i], content_type, rule.name.deep_view()))
                &&& cell_from(r[i][1], apply_extract_spec(items[i], content_type, rule.author.deep_view()))
                &&& cell_from(r[i][2], apply_extract_spec(items[i], content_type, rule.bookUrl.deep_view()))
                &&& cell_from(r[i][3], apply_extract_spec(items[i], content_type, rule.coverUrl.deep_view()))
                &&& rule.bookUrl is None ==> r[i][2].len() == 0
                &&& rule.coverUrl is None ==> r[i][3].len() == 0
            }
        }),
{
}

/// Law: results are valid exactly when some row of at least two cells has a
/// name or an author that is not blank: a non-blank author alone is enough,
/// and no results are never valid.
pub proof fn lemma_valid_results(results: Seq<Seq<Seq<char>>>, i: int)
    ensures
        results.len() == 0 ==> !has_valid_results_spec(results),
        0 <= i < results.len() && results[i].len() >= 2 && !is_blank(results[i][1])
            ==> has_valid_results_spec(results),
        0 <= i < results.len() && results[i].len() >= 2 && !is_blank(results[i][0])
            ==> has_valid_results_spec(results),
        (forall|k: int|
            0 <= k < results.len() ==> (#[trigger] results[k]).len() < 2 || (is_blank(results[k][0])
                && is_blank(results[k][1]))) ==> !has_valid_results_spec(results),
{
}

// ───────────────────────────── executable ─────────────────────────────

fn copy_string(s: &String) -> (r: String)
    ensures
        r@ == s@,
{
    string_of(&chars_of(s.as_str()))
}

/// A token with the same content.
fn clone_token(t: &RuleToken) -> (r: RuleToken)
    ensures
        r@ == t@,
{
    match t {
        RuleToken::CssClass(s) => RuleToken::CssClass(copy_string(s)),
        RuleToken::CssId(s) => RuleToken::CssId(copy_string(s)),
        RuleToken::TagName(s) => RuleToken::TagName(copy_string(s)),
        RuleToken::CssOverride(s) => RuleToken::CssOverride(copy_string(s)),
        RuleToken::JsonPath(s) => RuleToken::JsonPath(copy_string(s)),
        RuleToken::DataPath(v) => RuleToken::DataPath(clone_strings(v)),
        RuleToken::JsBlock(s) => RuleToken::JsBlock(copy_string(s)),
        RuleToken::Index(n) => RuleToken::Index(*n),
        RuleToken::ExcludeIndex(n) => RuleToken::ExcludeIndex(*n),
        RuleToken::Text => RuleToken::Text,
        RuleToken::TextNodes => RuleToken::TextNodes,
        RuleToken::Href => RuleToken::Href,
        RuleToken::Html => RuleToken::Html,
        RuleToken::Src => RuleToken::Src,
        RuleToken::Fallback => RuleToken::Fallback,
        RuleToken::RegexReplace { pattern, replacement } => RuleToken::RegexReplace {
            pattern: copy_string(pattern),
            replacement: copy_string(replacement),
        },
        RuleToken::TagShort(s) => RuleToken::TagShort(copy_string(s)),
        RuleToken::JsTransform(s) => RuleToken::JsTransform(copy_string(s)),
        RuleToken::Unknown(s) => RuleToken::Unknown(copy_string(s)),
    }
}

/// The values of one `||` alternative. `json` is the parsed content when the
/// content type is JSON.
fn segment_values_exec(
    content: &str,
    content_type: &str,
    json: &Option<JsonValue>,
    seg: &Vec<RuleToken>,
    comb: &Vec<RuleToken>,
) -> (r: Vec<String>)
    requires
        contains(content_type@, "json"@) ==> *json == json_parse(content@),
        comb.deep_view() == without_takes(seg.deep_view()),
    ensures
        r.deep_view() == segment_values(content@, content_type@, seg.deep_view()),
{
    proof {
        assert(seg@.map_values(|t: RuleToken| t@) =~= seg.deep_view());
    }
    let ghost sv = seg.deep_view();
    let raw = if contains_exec(&chars_of(content_type), &chars_of("json")) {
        match json {
            Some(j) => {
                let r = json_extractor::extract(j, seg.as_slice());
                assert(r.deep_view() == segment_raw(content@, content_type@, sv));
                r
            },
            None => {
                let r: Vec<String> = Vec::new();
                assert(r.deep_view() =~= segment_raw(content@, content_type@, sv));
                r
            },
        }
    } else {
        html_extractor::extract(content, seg.as_slice())
    };
    assert(raw.deep_view() == segment_raw(content@, content_type@, sv));
    proof {
        assert(comb@.map_values(|t: RuleToken| t@) =~= comb.deep_view());
    }
    apply_combinators(raw, comb.as_slice())
}

/// The values a rule extracts from content, `||` alternatives tried in turn.
fn rule_values(content: &str, content_type: &str, rule: &str) -> (r: Vec<String>)
    requires
        tokenize_accepts(rule@),
    ensures
        r.deep_view() == rule_values_spec(content@, content_type@, rule@),
{
    let tokens = tokenize(rule);
    let ghost tv = tokens.deep_view();
    assert(tv.len() == tokens@.len());
    let json = if contains_exec(&chars_of(content_type), &chars_of("json")) {
        parse_json(content)
    } else {
        None
    };
    let mut seg: Vec<RuleToken> = Vec::new();
    let mut comb: Vec<RuleToken> = Vec::new();
    assert(seg.deep_view() =~= Seq::<TokenView>::empty());
    assert(comb.deep_view() =~= without_takes(seg.deep_view()));
    assert(tv.skip(0) =~= tv);
    let mut i: usize = 0;
    while i < tokens.len()
        invariant
            i <= tokens@.len(),
            tv == tokens.deep_view(),
            tv == tokenize_spec(rule@),
            contains(content_type@, "json"@) ==> json == json_parse(content@),
            comb.deep_view() == without_takes(seg.deep_view()),
            fallback_values(content@, content_type@, seq![], tv) == fallback_values(
                content@,
                content_type@,
                seg.deep_view(),
                tv.skip(i as int),
            ),
        decreases tokens.len() - i,
    {
        assert(tv.skip(i as int)[0] == tokens@[i as int]@);
        assert(tv.skip(i as int).drop_first() =~= tv.skip(i + 1));
        match &tokens[i] {
            RuleToken::Fallback => {
                assert(tv.skip(i as int)[0] is Fallback);
                let v = segment_values_exec(content, content_type, &json, &seg, &comb);
                if has_content_exec(&v) {
                    assert(tv.skip(i as int).len() > 0);
                    assert(fallback_values(content@, content_type@, seg.deep_view(), tv.skip(i as int))
                        == v.deep_view());
                    return v;
                }
                seg = Vec::new();
                comb = Vec::new();
                assert(seg.deep_view() =~= Seq::<TokenView>::empty());
                assert(comb.deep_view() =~= without_takes(seg.deep_view()));
            },
            _ => {
                let is_take = match &tokens[i] {
                    RuleToken::Index(_) => true,
                    _ => false,
                };
                if !is_take {
                    let c = clone_token(&tokens[i]);
                    let ghost before_c = comb;
                    comb.push(c);
                    proof {
                        lemma_vec_push_deep_view(before_c, comb, c);
                    }
                }
                let t = clone_token(&tokens[i]);
                let ghost before = seg;
                seg.push(t);
                proof {
                    lemma_vec_push_deep_view(before, seg, t);
                    assert(seg.deep_view().drop_last() =~= before.deep_view());
                    assert(comb.deep_view() =~= without_takes(seg.deep_view()));
                }
            },
        }
        i += 1;
    }
    assert(tv.skip(tokens@.len() as int) =~= Seq::<TokenView>::empty());
    segment_values_exec(content, content_type, &json, &seg, &comb)
}

fn apply_extract(content: &str, content_type: &str, rule: &Option<String>) -> (r: Vec<String>)
    requires
        opt_rule_accepted(*rule),
    ensures
        r.deep_view() == apply_extract_spec(content@, content_type@, rule.deep_view()),
{
    match rule {
        Some(r) => {
            if r.as_str().is_empty() {
                return Vec::new();
            }
            rule_values(content, content_type, r.as_str())
        },
        None => Vec::new(),
    }
}

fn first_or_empty_exec(v: &Vec<String>) -> (r: String)
    ensures
        r@ == first_or_empty(v.deep_view()),
{
    if v.len() > 0 {
        v[0].clone()
    } else {
        string_of(&Vec::new())
    }
}

fn opt_rule_accepted_exec(rule: &Option<String>) -> (b: bool)
    ensures
        b == opt_rule_accepted(*rule),
{
    match rule {
        Some(r) => accepts_rule(r.as_str()),
        None => true,
    }
}

/// Whether every rule `extract_results` tokenizes on `content` is accepted
/// (see [`extract_results_accepts`]).
pub fn extract_results_accepted(content: &str, content_type: &str, rule: &SearchRule) -> (b: bool)
    ensures
        b == extract_results_accepts(content@, content_type@, *rule),
{
    match &rule.bookList {
        None => true,
        Some(bl) => {
            if !accepts_rule(bl.as_str()) {
                return false;
            }
            let items = rule_values(content, content_type, bl.as_str());
            if items.len() == 0 {
                return true;
            }
            opt_rule_accepted_exec(&rule.name) && opt_rule_accepted_exec(&rule.author)
                && opt_rule_accepted_exec(&rule.bookUrl) && opt_rule_accepted_exec(&rule.coverUrl)
        },
    }
}

/// Parse the list rule and per-item rules of `rule` and extract
/// `[name, author, bookUrl, coverUrl]` for each list item of `content`.
pub fn extract_results(content: &str, content_type: &str, rule: &SearchRule) -> (r: Vec<
    Vec<String>,
>)
    requires
        extract_results_accepts(content@, content_type@, *rule),
    ensures
        r.deep_view() == extract_results_spec(content@, content_type@, *rule),
{
    let mut results: Vec<Vec<String>> = Vec::new();
    let book_list = match &rule.bookList {
        Some(bl) => bl,
        None => {
            assert(results.deep_view() =~= Seq::<Seq<Seq<char>>>::empty());
            return results;
        },
    };
    let items = rule_values(content, content_type, book_list.as_str());
    let ghost iv = items.deep_view();
    let mut i: usize = 0;
    while i < items.len()
        invariant
            i <= items@.len(),
            iv == items.deep_view(),
            iv == rule_values_spec(content@, content_type@, book_list@),
            iv.len() > 0 ==> item_rules_accepted(*rule),
            results.deep_view() == Seq::new(
                i as nat,
                |j: int| item_row(iv[j], content_type@, *rule),
            ),
        decreases items.len() - i,
    {
        let item = items[i].as_str();
        assert(iv[i as int] == item@);
        let name = apply_extract(item, content_type, &rule.name);
        let author = apply_extract(item, content_type, &rule.author);
        let book_url = apply_extract(item, content_type, &rule.bookUrl);
        let cover_url = apply_extract(item, content_type, &rule.coverUrl);
        let row = vec![
            first_or_empty_exec(&name),
            first_or_empty_exec(&author),
            first_or_empty_exec(&book_url),
            first_or_empty_exec(&cover_url),
        ];
        assert(row.deep_view() =~= item_row(iv[i as int], content_type@, *rule));
        let ghost before = results;
        results.push(row);
        proof {
            lemma_vec_push_deep_view(before, results, row);
        }
        assert(results.deep_view() =~= Seq::new(
            (i + 1) as nat,
            |j: int| item_row(iv[j], content_type@, *rule),
        ));
        i += 1;
    }
    results
}

/// Check if search results contain valid data (non-empty name or author).
pub fn has_valid_results(results: &[Vec<String>]) -> (b: bool)
    ensures
        b == has_valid_results_spec(results@.map_values(|v: Vec<String>| v.deep_view())),
{
    let ghost rv = results@.map_values(|v: Vec<String>| v.deep_view());
    if results.len() == 0 {
        return false;
    }
    let mut i: usize = 0;
    while i < results.len()
        invariant
            i <= results@.len(),
            rv == results@.map_values(|v: Vec<String>| v.deep_view()),
            forall|k: int|
                0 <= k < i ==> !(#[trigger] rv[k].len() >= 2 && (!is_blank(rv[k][0]) || !is_blank(
                    rv[k][1],
                ))),
        decreases results.len() - i,
    {
        let row = &results[i];
        assert(rv[i as int] == row.deep_view());
        if row.len() >= 2 {
            let name_blank = is_blank_exec(row[0].as_str());
            let author_blank = is_blank_exec(row[1].as_str());
            assert(rv[i as int][0] == row@[0]@ && rv[i as int][1] == row@[1]@);
            if !name_blank || !author_blank {
                return true;
            }
        }
        i += 1;
    }
    false
}

} // verus!
