//! The preflight: which book sources are worth a search test.
use vstd::prelude::*;
use crate::text::{chars_of, contains, contains_exec, eq_exec, starts_with, starts_with_exec, trim, trim_chars};
use crate::types::{BookSource, PreflightBreakdown, PreflightOutput, SkipReason};
use crate::url_fixer::{fix_url, fix_url_spec, lemma_fixed_url_starts_with_http};

verus! {

/// Classify a `bookSourceUrl` as valid (keep), fixable (auto-fix), or unfixable (skip).
pub enum UrlStatus {
    Valid(String),
    Fixable(String),
    Unfixable,
}

// ───────────────────────────── specifications ─────────────────────────────

/// The URL a source keeps: its own if it has a scheme, else the fixed one.
pub open spec fn classify_url_spec(raw: Seq<char>) -> Option<Seq<char>> {
    if starts_with(raw, "http://"@) || starts_with(raw, "https://"@) {
        Some(raw)
    } else {
        fix_url_spec(raw)
    }
}

/// A `searchUrl` that is neither blank nor a `-` / `#` placeholder.
pub open spec fn is_real_search_url(u: Seq<char>) -> bool {
    let t = trim(u);
    t.len() > 0 && t != "-"@ && t != "#"@
}

pub open spec fn has_search_spec(s: BookSource) -> bool {
    s.searchUrl matches Some(u) && is_real_search_url(u@)
}

pub open spec fn has_explore_spec(s: BookSource) -> bool {
    s.exploreUrl is Some
}

pub open spec fn is_text_enabled(s: BookSource) -> bool {
    s.bookSourceType == 0 && s.enabled
}

/// Where the preflight puts one source.
pub enum Outcome {
    Excluded,
    Skipped(SkipReason),
    ExploreOnly,
    Eligible,
}

pub open spec fn outcome(s: BookSource) -> Outcome {
    if !is_text_enabled(s) {
        Outcome::Excluded
    } else if classify_url_spec(s.bookSourceUrl@) is None {
        Outcome::Skipped(SkipReason::BadUrl)
    } else if !has_search_spec(s) && !has_explore_spec(s) {
        Outcome::Skipped(SkipReason::NoCapability)
    } else if !has_search_spec(s) {
        Outcome::ExploreOnly
    } else if s.ruleSearch is None {
        Outcome::Skipped(SkipReason::NoSearchRule)
    } else if s.ruleContent is None {
        Outcome::Skipped(SkipReason::NoContentRule)
    } else {
        Outcome::Eligible
    }
}

/// The `bookSourceUrl` a source carries out of the preflight: the kept URL,
/// or nothing for a source skipped for its URL.
pub open spec fn output_url(s: BookSource) -> Seq<char> {
    match classify_url_spec(s.bookSourceUrl@) {
        Some(u) => u,
        None => seq![],
    }
}

/// A source without its `bookSourceUrl` (that field fixed to one value).
pub open spec fn without_url(s: BookSource) -> BookSource {
    BookSource { bookSourceUrl: arbitrary(), ..s }
}

/// A source as the contracts compare it: everything but the URL, and the URL's text.
pub open spec fn source_view(s: BookSource) -> (BookSource, Seq<char>) {
    (without_url(s), s.bookSourceUrl@)
}

/// The source as it leaves the preflight.
pub open spec fn output_view(s: BookSource) -> (BookSource, Seq<char>) {
    (without_url(s), output_url(s))
}

pub open spec fn eligible_spec(srcs: Seq<BookSource>) -> Seq<(BookSource, Seq<char>)>
    decreases srcs.len(),
{
    if srcs.len() == 0 {
        seq![]
    } else {
        eligible_spec(srcs.drop_last()) + if outcome(srcs.last()) is Eligible {
            seq![output_view(srcs.last())]
        } else {
            seq![]
        }
    }
}

pub open spec fn explore_only_spec(srcs: Seq<BookSource>) -> Seq<(BookSource, Seq<char>)>
    decreases srcs.len(),
{
    if srcs.len() == 0 {
        seq![]
    } else {
        explore_only_spec(srcs.drop_last()) + if outcome(srcs.last()) is ExploreOnly {
            seq![output_view(srcs.last())]
        } else {
            seq![]
        }
    }
}

pub open spec fn skipped_spec(srcs: Seq<BookSource>) -> Seq<((BookSource, Seq<char>), SkipReason)>
    decreases srcs.len(),
{
    if srcs.len() == 0 {
        seq![]
    } else {
        skipped_spec(srcs.drop_last()) + match outcome(srcs.last()) {
            Outcome::Skipped(reason) => seq![(output_view(srcs.last()), reason)],
            _ => seq![],
        }
    }
}

pub open spec fn excluded_count(srcs: Seq<BookSource>) -> nat
    decreases srcs.len(),
{
    if srcs.len() == 0 {
        0
    } else {
        excluded_count(srcs.drop_last()) + if outcome(srcs.last()) is Excluded {
            1nat
        } else {
            0nat
        }
    }
}

/// The kinds of `searchUrl` the breakdown counts.
pub enum SearchKind {
    Template,
    JsPrefix,
    JsBlock,
    PureUrl,
    Placeholder,
    Absent,
}

pub open spec fn search_kind(s: BookSource) -> SearchKind {
    match s.searchUrl {
        None => SearchKind::Absent,
        Some(su) => {
            let u = su@;
            if starts_with(u, "@js:"@) {
                SearchKind::JsPrefix
            } else if contains(u, "<js>"@) {
                SearchKind::JsBlock
            } else if contains(u, "{{"@) {
                SearchKind::Template
            } else if !is_real_search_url(u) {
                SearchKind::Placeholder
            } else {
                SearchKind::PureUrl
            }
        },
    }
}

pub open spec fn count_kind(list: Seq<(BookSource, Seq<char>)>, k: SearchKind) -> nat
    decreases list.len(),
{
    if list.len() == 0 {
        0
    } else {
        count_kind(list.drop_last(), k) + if search_kind(list.last().0) == k {
            1nat
        } else {
            0nat
        }
    }
}

pub open spec fn breakdown_spec(list: Seq<(BookSource, Seq<char>)>) -> PreflightBreakdown {
    PreflightBreakdown {
        template: count_kind(list, SearchKind::Template) as usize,
        js_prefix: count_kind(list, SearchKind::JsPrefix) as usize,
        js_block: count_kind(list, SearchKind::JsBlock) as usize,
        pure_url: count_kind(list, SearchKind::PureUrl) as usize,
        placeholder: count_kind(list, SearchKind::Placeholder) as usize,
    }
}

// ───────────────────────────── laws ─────────────────────────────

/// Law: every input source is counted exactly once: excluded, eligible,
/// skipped or explore-only.
pub proof fn lemma_preflight_accounts_for_every_source(srcs: Seq<BookSource>)
    ensures
        srcs.len() == excluded_count(srcs) + eligible_spec(srcs).len() + skipped_spec(srcs).len()
            + explore_only_spec(srcs).len(),
    decreases srcs.len(),
{
    if srcs.len() > 0 {
        lemma_preflight_accounts_for_every_source(srcs.drop_last());
    }
}

/// Every eligible entry has a real search URL, so its kind is one of the
/// four counted ones (never a placeholder, never absent).
proof fn lemma_eligible_kinds(srcs: Seq<BookSource>)
    ensures
        count_kind(eligible_spec(srcs), SearchKind::Placeholder) == 0,
        count_kind(eligible_spec(srcs), SearchKind::Template) + count_kind(
            eligible_spec(srcs),
            SearchKind::JsPrefix,
        ) + count_kind(eligible_spec(srcs), SearchKind::JsBlock) + count_kind(
            eligible_spec(srcs),
            SearchKind::PureUrl,
        ) == eligible_spec(srcs).len(),
    decreases srcs.len(),
{
    if srcs.len() > 0 {
        let rest = srcs.drop_last();
        lemma_eligible_kinds(rest);
        let e = eligible_spec(srcs);
        if outcome(srcs.last()) is Eligible {
            assert(e.drop_last() =~= eligible_spec(rest));
            assert(search_kind(e.last().0) == search_kind(srcs.last()));
        } else {
            assert(e =~= eligible_spec(rest));
        }
    }
}

/// Law: the search-URL breakdown of the eligible sources adds up to their
/// number, and counts no placeholder.
pub proof fn lemma_breakdown_sums_to_eligible(srcs: Seq<BookSource>)
    requires
        srcs.len() <= usize::MAX,
    ensures
        ({
            let b = breakdown_spec(eligible_spec(srcs));
            &&& b.template + b.js_prefix + b.js_block + b.pure_url + b.placeholder
                == eligible_spec(srcs).len()
            &&& b.placeholder == 0
        }),
{
    lemma_eligible_kinds(srcs);
    lemma_preflight_accounts_for_every_source(srcs);
}

/// Law: every eligible source leaves with a URL that begins with `http`, a
/// real search URL, a search rule and a content rule.
pub proof fn lemma_eligible_sources_are_testable(srcs: Seq<BookSource>, k: int)
    requires
        0 <= k < eligible_spec(srcs).len(),
    ensures
        ({
            let (s, url) = eligible_spec(srcs)[k];
            &&& starts_with(url, "http"@)
            &&& has_search_spec(s)
            &&& s.ruleSearch is Some
            &&& s.ruleContent is Some
        }),
    decreases srcs.len(),
{
    let rest = srcs.drop_last();
    let e = eligible_spec(srcs);
    if k < eligible_spec(rest).len() {
        lemma_eligible_sources_are_testable(rest, k);
        assert(e[k] == eligible_spec(rest)[k]);
    } else {
        let last = srcs.last();
        assert(outcome(last) is Eligible);
        assert(e[k] == output_view(last));
        let raw = last.bookSourceUrl@;
        lemma_fixed_url_starts_with_http(raw);
        reveal_strlit("http://");
        reveal_strlit("https://");
        reveal_strlit("http");
        if starts_with(raw, "http://"@) || starts_with(raw, "https://"@) {
            assert(raw.subrange(0, 4) =~= "http"@);
        }
    }
}

/// The text-enabled sources in input order, each with where it goes and how
/// it leaves.
pub open spec fn sorted_sources(srcs: Seq<BookSource>) -> Seq<(Outcome, (BookSource, Seq<char>))>
    decreases srcs.len(),
{
    if srcs.len() == 0 {
        seq![]
    } else {
        sorted_sources(srcs.drop_last()) + if outcome(srcs.last()) is Excluded {
            seq![]
        } else {
            seq![(outcome(srcs.last()), output_view(srcs.last()))]
        }
    }
}

pub open spec fn is_eligible_entry(p: (Outcome, (BookSource, Seq<char>))) -> bool {
    p.0 is Eligible
}

pub open spec fn is_explore_entry(p: (Outcome, (BookSource, Seq<char>))) -> bool {
    p.0 is ExploreOnly
}

pub open spec fn is_skipped_entry(p: (Outcome, (BookSource, Seq<char>))) -> bool {
    p.0 is Skipped
}

pub open spec fn entry_view(p: (Outcome, (BookSource, Seq<char>))) -> (BookSource, Seq<char>) {
    p.1
}

pub open spec fn skipped_entry(p: (Outcome, (BookSource, Seq<char>))) -> ((BookSource, Seq<char>), SkipReason) {
    (p.1, match p.0 {
        Outcome::Skipped(r) => r,
        _ => SkipReason::Excluded,
    })
}

/// Law: the eligible, skipped and explore-only lists are disjoint
/// subsequences, in input order, of the text-enabled sources (each leaving
/// with its kept URL), and together they cover all of them.
pub proof fn lemma_preflight_partitions_input(srcs: Seq<BookSource>)
    ensures
        sorted_sources(srcs).map_values(|p: (Outcome, (BookSource, Seq<char>))| entry_view(p))
            == srcs.filter(|s: BookSource| is_text_enabled(s)).map_values(
            |s: BookSource| output_view(s),
        ),
        eligible_spec(srcs) == sorted_sources(srcs).filter(
            |p: (Outcome, (BookSource, Seq<char>))| is_eligible_entry(p),
        ).map_values(|p: (Outcome, (BookSource, Seq<char>))| entry_view(p)),
        explore_only_spec(srcs) == sorted_sources(srcs).filter(
            |p: (Outcome, (BookSource, Seq<char>))| is_explore_entry(p),
        ).map_values(|p: (Outcome, (BookSource, Seq<char>))| entry_view(p)),
        skipped_spec(srcs) == sorted_sources(srcs).filter(
            |p: (Outcome, (BookSource, Seq<char>))| is_skipped_entry(p),
        ).map_values(|p: (Outcome, (BookSource, Seq<char>))| skipped_entry(p)),
        sorted_sources(srcs).len() == eligible_spec(srcs).len() + skipped_spec(srcs).len()
            + explore_only_spec(srcs).len(),
    decreases srcs.len(),
{
    reveal(Seq::filter);
    let ss = sorted_sources(srcs);
    let fe = |p: (Outcome, (BookSource, Seq<char>))| is_eligible_entry(p);
    let fx = |p: (Outcome, (BookSource, Seq<char>))| is_explore_entry(p);
    let fs = |p: (Outcome, (BookSource, Seq<char>))| is_skipped_entry(p);
    let ft = |s: BookSource| is_text_enabled(s);
    let v = |p: (Outcome, (BookSource, Seq<char>))| entry_view(p);
    let sk = |p: (Outcome, (BookSource, Seq<char>))| skipped_entry(p);
    let ov = |s: BookSource| output_view(s);
    if srcs.len() == 0 {
        assert(ss.filter(fe) =~= ss);
        assert(ss.filter(fx) =~= ss);
        assert(ss.filter(fs) =~= ss);
        assert(ss.map_values(v) =~= srcs.filter(ft).map_values(ov));
        assert(eligible_spec(srcs) =~= ss.filter(fe).map_values(v));
        assert(explore_only_spec(srcs) =~= ss.filter(fx).map_values(v));
        assert(skipped_spec(srcs) =~= ss.filter(fs).map_values(sk));
    } else {
        let rest = srcs.drop_last();
        let last = srcs.last();
        lemma_preflight_partitions_input(rest);
        let sr = sorted_sources(rest);
        assert(srcs.filter(ft) == if ft(last) { rest.filter(ft).push(last) } else { rest.filter(ft) });
        if outcome(last) is Excluded {
            assert(ss =~= sr);
            assert(!ft(last));
            assert(eligible_spec(srcs) =~= eligible_spec(rest));
            assert(explore_only_spec(srcs) =~= explore_only_spec(rest));
            assert(skipped_spec(srcs) =~= skipped_spec(rest));
        } else {
            let e = (outcome(last), output_view(last));
            assert(ss =~= sr.push(e));
            assert(ss.drop_last() =~= sr);
            assert(ss.last() == e);
            assert(ft(last));
            assert(ss.map_values(v) =~= sr.map_values(v).push(v(e)));
            assert(srcs.filter(ft).map_values(ov) =~= rest.filter(ft).map_values(ov).push(ov(last)));
            if outcome(last) is Eligible {
                assert(ss.filter(fe) == sr.filter(fe).push(e));
                assert(ss.filter(fx) == sr.filter(fx));
                assert(ss.filter(fs) == sr.filter(fs));
                assert(ss.filter(fe).map_values(v) =~= sr.filter(fe).map_values(v).push(v(e)));
                assert(eligible_spec(srcs) =~= eligible_spec(rest).push(output_view(last)));
                assert(explore_only_spec(srcs) =~= explore_only_spec(rest));
                assert(skipped_spec(srcs) =~= skipped_spec(rest));
            } else if outcome(last) is ExploreOnly {
                assert(ss.filter(fx) == sr.filter(fx).push(e));
                assert(ss.filter(fe) == sr.filter(fe));
                assert(ss.filter(fs) == sr.filter(fs));
                assert(ss.filter(fx).map_values(v) =~= sr.filter(fx).map_values(v).push(v(e)));
                assert(explore_only_spec(srcs) =~= explore_only_spec(rest).push(output_view(last)));
                assert(eligible_spec(srcs) =~= eligible_spec(rest));
                assert(skipped_spec(srcs) =~= skipped_spec(rest));
            } else {
                assert(ss.filter(fs) == sr.filter(fs).push(e));
                assert(ss.filter(fe) == sr.filter(fe));
                assert(ss.filter(fx) == sr.filter(fx));
                assert(ss.filter(fs).map_values(sk) =~= sr.filter(fs).map_values(sk).push(sk(e)));
                assert(skipped_spec(srcs) =~= skipped_spec(rest).push(sk(e)));
                assert(eligible_spec(srcs) =~= eligible_spec(rest));
                assert(explore_only_spec(srcs) =~= explore_only_spec(rest));
            }
        }
    }
}

// ───────────────────────────── executable ─────────────────────────────

fn classify_url(raw: &str) -> (r: UrlStatus)
    ensures
        match r {
            UrlStatus::Valid(u) => classify_url_spec(raw@) == Some(u@),
            UrlStatus::Fixable(u) => classify_url_spec(raw@) == Some(u@),
            UrlStatus::Unfixable => classify_url_spec(raw@) is None,
        },
{
    let cs = chars_of(raw);
    if starts_with_exec(&cs, &chars_of("http://")) || starts_with_exec(&cs, &chars_of("https://")) {
        return UrlStatus::Valid(crate::text::string_of(&cs));
    }
    match fix_url(raw) {
        Some(fixed) => UrlStatus::Fixable(fixed),
        None => UrlStatus::Unfixable,
    }
}

fn is_real_search_url_exec(u: &str) -> (b: bool)
    ensures
        b == is_real_search_url(u@),
{
    let t = trim_chars(&chars_of(u));
    t.len() > 0 && !eq_exec(&t, &chars_of("-")) && !eq_exec(&t, &chars_of("#"))
}

fn has_search(s: &BookSource) -> (b: bool)
    ensures
        b == has_search_spec(*s),
{
    match &s.searchUrl {
        Some(u) => is_real_search_url_exec(u.as_str()),
        None => false,
    }
}

fn has_explore(s: &BookSource) -> (b: bool)
    ensures
        b == has_explore_spec(*s),
{
    s.exploreUrl.is_some()
}

fn search_kind_exec(s: &BookSource) -> (k: SearchKind)
    ensures
        k == search_kind(*s),
{
    match &s.searchUrl {
        None => SearchKind::Absent,
        Some(su) => {
            let u = chars_of(su.as_str());
            if starts_with_exec(&u, &chars_of("@js:")) {
                SearchKind::JsPrefix
            } else if contains_exec(&u, &chars_of("<js>")) {
                SearchKind::JsBlock
            } else if contains_exec(&u, &chars_of("{{")) {
                SearchKind::Template
            } else if !is_real_search_url_exec(su.as_str()) {
                SearchKind::Placeholder
            } else {
                SearchKind::PureUrl
            }
        },
    }
}

fn breakdown(eligible: &Vec<BookSource>) -> (b: PreflightBreakdown)
    ensures
        b == breakdown_spec(eligible@.map_values(|s: BookSource| source_view(s))),
{
    let ghost ev = eligible@.map_values(|s: BookSource| source_view(s));
    let mut template: usize = 0;
    let mut js_prefix: usize = 0;
    let mut js_block: usize = 0;
    let mut pure_url: usize = 0;
    let mut placeholder: usize = 0;
    let mut i: usize = 0;
    assert(ev.take(0) =~= Seq::<(BookSource, Seq<char>)>::empty());
    while i < eligible.len()
        invariant
            i <= eligible@.len(),
            ev == eligible@.map_values(|s: BookSource| source_view(s)),
            template == count_kind(ev.take(i as int), SearchKind::Template),
            js_prefix == count_kind(ev.take(i as int), SearchKind::JsPrefix),
            js_block == count_kind(ev.take(i as int), SearchKind::JsBlock),
            pure_url == count_kind(ev.take(i as int), SearchKind::PureUrl),
            placeholder == count_kind(ev.take(i as int), SearchKind::Placeholder),
            template + js_prefix + js_block + pure_url + placeholder <= i,
        decreases eligible.len() - i,
    {
        assert(ev.take(i + 1).drop_last() =~= ev.take(i as int));
        assert(ev.take(i + 1).last().0 == without_url(eligible@[i as int]));
        assert(search_kind(without_url(eligible@[i as int])) == search_kind(eligible@[i as int]));
        match search_kind_exec(&eligible[i]) {
            SearchKind::Template => {
                template += 1;
            },
            SearchKind::JsPrefix => {
                js_prefix += 1;
            },
            SearchKind::JsBlock => {
                js_block += 1;
            },
            SearchKind::PureUrl => {
                pure_url += 1;
            },
            SearchKind::Placeholder => {
                placeholder += 1;
            },
            SearchKind::Absent => {},
        }
        i += 1;
    }
    assert(ev.take(eligible@.len() as int) =~= ev);
    PreflightBreakdown { template, js_prefix, js_block, pure_url, placeholder }
}

/// Run the full preflight pipeline.
pub fn run(sources: Vec<BookSource>) -> (out: PreflightOutput)
    ensures
        out.total_input == sources@.len(),
        out.excluded == excluded_count(sources@),
        out.eligible@.map_values(|s: BookSource| source_view(s)) == eligible_spec(sources@),
        out.explore_only@.map_values(|s: BookSource| source_view(s)) == explore_only_spec(
            sources@,
        ),
        out.skipped@.map_values(|p: (BookSource, SkipReason)| (source_view(p.0), p.1))
            == skipped_spec(sources@),
        out.text_enabled == out.eligible@.len() + out.skipped@.len() + out.explore_only@.len(),
        out.breakdown == breakdown_spec(eligible_spec(sources@)),
{
    let total_input = sources.len();
    let ghost all = sources@;
    let mut excluded: usize = 0;
    let mut eligible: Vec<BookSource> = Vec::new();
    let mut skipped: Vec<(BookSource, SkipReason)> = Vec::new();
    let mut explore_only: Vec<BookSource> = Vec::new();
    for source in it: sources.into_iter()
        invariant
            it.seq() == all,
            total_input == all.len(),
            excluded == excluded_count(all.take(it.index() as int)),
            excluded + eligible@.len() + skipped@.len() + explore_only@.len() <= it.index(),
            eligible@.map_values(|s: BookSource| source_view(s)) == eligible_spec(
                all.take(it.index() as int),
            ),
            explore_only@.map_values(|s: BookSource| source_view(s)) == explore_only_spec(
                all.take(it.index() as int),
            ),
            skipped@.map_values(|p: (BookSource, SkipReason)| (source_view(p.0), p.1))
                == skipped_spec(all.take(it.index() as int)),
    {
        let ghost idx = it.index() as int;
        let ghost orig = source;
        proof {
            assert(all.take(idx + 1).drop_last() =~= all.take(idx));
            assert(all.take(idx + 1).last() == orig);
        }
        let ghost e0 = eligible@;
        let ghost x0 = explore_only@;
        let ghost s0 = skipped@;
        let mut source = source;
        if !(source.bookSourceType == 0 && source.enabled) {
            excluded += 1;
        } else {
            let kept = match classify_url(source.bookSourceUrl.as_str()) {
                UrlStatus::Valid(u) => Some(u),
                UrlStatus::Fixable(u) => Some(u),
                UrlStatus::Unfixable => None,
            };
            match kept {
                None => {
                    source.bookSourceUrl = String::new();
                    assert(source_view(source) == output_view(orig));
                    skipped.push((source, SkipReason::BadUrl));
                },
                Some(u) => {
                    source.bookSourceUrl = u;
                    assert(source_view(source) == output_view(orig));
                    assert(has_search_spec(source) == has_search_spec(orig));
                    let can_search = has_search(&source);
                    let can_explore = has_explore(&source);
                    if !can_search && !can_explore {
                        skipped.push((source, SkipReason::NoCapability));
                    } else if !can_search && can_explore {
                        explore_only.push(source);
                    } else if source.ruleSearch.is_none() {
                        skipped.push((source, SkipReason::NoSearchRule));
                    } else if source.ruleContent.is_none() {
                        skipped.push((source, SkipReason::NoContentRule));
                    } else {
                        eligible.push(source);
                    }
                },
            }
        }
        assert(skipped@.map_values(|p: (BookSource, SkipReason)| (source_view(p.0), p.1))
            =~= skipped_spec(all.take(idx + 1)));
        assert(eligible@.map_values(|s: BookSource| source_view(s)) =~= eligible_spec(
            all.take(idx + 1),
        ));
        assert(explore_only@.map_values(|s: BookSource| source_view(s)) =~= explore_only_spec(
            all.take(idx + 1),
        ));
    }
    assert(all.take(all.len() as int) =~= all);
    let text_enabled = eligible.len() + skipped.len() + explore_only.len();
    let b = breakdown(&eligible);
    PreflightOutput { total_input, excluded, text_enabled, eligible, skipped, explore_only, breakdown: b }
}

} // verus!
