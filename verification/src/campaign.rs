//! The decisions of a multi-round test campaign: which sources a later round
//! retries, which failures mark a dead domain, the final tally, where the
//! newest source list is published, and the test configuration. (The cache,
//! files and network are handled by the program, which hands these functions
//! the cached `(status, reason)` of each source.)
use vstd::prelude::*;
use crate::html::{html_select_nested, select_nested};
use crate::rule_dsl::html_extractor::{attr_lookup, attr_lookup_exec};
use crate::config::{parse_toml, search_entries, search_entries_spec, toml_parse};
use crate::tester::{TestBook, TestConfig};
use crate::text::{
    chars_of, contains, contains_exec, ends_with, ends_with_exec, eq_exec, lemma_vec_push_deep_view,
    lowercase, split_char, split_char_exec, string_of, to_lowercase, trim, trim_chars,
};

verus! {

/// A cached test result: status and optional reason.
pub type Cached = Option<(String, Option<String>)>;

pub open spec fn status_is(c: Cached, s: Seq<char>) -> bool {
    c matches Some((st, _)) && st@ == s
}

// ───────────────────────────── retries ─────────────────────────────

/// Worth retrying in a later round: not tested yet, or failed on a network error.
pub open spec fn retryable_spec(c: Cached) -> bool {
    match c {
        None => true,
        Some((status, reason)) => status@ == "failed"@ && reason.deep_view() == Some(
            "network_error"@,
        ),
    }
}

/// Positions (in order) of the sources whose cached result satisfies `p`.
pub open spec fn positions(cached: Seq<Cached>, p: spec_fn(Cached) -> bool) -> Seq<usize>
    decreases cached.len(),
{
    if cached.len() == 0 {
        seq![]
    } else {
        positions(cached.drop_last(), p) + if p(cached.last()) {
            seq![(cached.len() - 1) as usize]
        } else {
            seq![]
        }
    }
}

fn status_eq(c: &Cached, s: &str) -> (b: bool)
    ensures
        b == status_is(*c, s@),
{
    match c {
        Some((st, _)) => eq_exec(&chars_of(st.as_str()), &chars_of(s)),
        None => false,
    }
}

/// Whether a source with this cached result is worth retrying.
pub fn is_retryable(c: &Cached) -> (b: bool)
    ensures
        b == retryable_spec(*c),
{
    match c {
        None => true,
        Some((status, reason)) => {
            eq_exec(&chars_of(status.as_str()), &chars_of("failed")) && match reason {
                Some(r) => eq_exec(&chars_of(r.as_str()), &chars_of("network_error")),
                None => false,
            }
        },
    }
}

/// Whether a campaign can run with this many concurrent workers (at least one).
pub fn concurrency_accepted(concurrency: usize) -> (b: bool)
    ensures
        b == (concurrency >= 1),
{
    concurrency >= 1
}

/// Positions of the sources a later round retries.
pub fn retryable_positions(cached: &Vec<Cached>) -> (r: Vec<usize>)
    ensures
        r@ == positions(cached@, |c: Cached| retryable_spec(c)),
{
    let mut r: Vec<usize> = Vec::new();
    let mut i: usize = 0;
    while i < cached.len()
        invariant
            i <= cached@.len(),
            r@ == positions(cached@.take(i as int), |c: Cached| retryable_spec(c)),
        decreases cached.len() - i,
    {
        assert(cached@.take(i + 1).drop_last() =~= cached@.take(i as int));
        assert(cached@.take(i + 1).last() == cached@[i as int]);
        if is_retryable(&cached[i]) {
            r.push(i);
        }
        i += 1;
    }
    assert(cached@.take(cached@.len() as int) =~= cached@);
    r
}

/// The positions satisfying `p`, in increasing order, each exactly once.
proof fn lemma_positions(cached: Seq<Cached>, p: spec_fn(Cached) -> bool)
    requires
        cached.len() <= usize::MAX,
    ensures
        forall|m: int|
            0 <= m < positions(cached, p).len() ==> (#[trigger] positions(cached, p)[m]) < cached.len()
                && p(cached[positions(cached, p)[m] as int]),
        forall|i: int| 0 <= i < cached.len() && #[trigger] p(cached[i]) ==> positions(cached, p).contains(i as usize),
        forall|a: int, b: int|
            0 <= a < b < positions(cached, p).len() ==> positions(cached, p)[a] < positions(cached, p)[b],
    decreases cached.len(),
{
    if cached.len() > 0 {
        let rest = cached.drop_last();
        lemma_positions(rest, p);
        let pr = positions(rest, p);
        let pc = positions(cached, p);
        assert forall|m: int| 0 <= m < pr.len() implies pc[m] == pr[m] by {}
        assert forall|i: int| 0 <= i < cached.len() && #[trigger] p(cached[i]) implies pc.contains(i as usize) by {
            if i < cached.len() - 1 {
                assert(rest[i] == cached[i]);
                assert(pr.contains(i as usize));
                let w = choose|w: int| 0 <= w < pr.len() && pr[w] == i as usize;
                assert(pc[w] == i as usize);
            } else {
                assert(pc[pc.len() - 1] == i as usize);
            }
        }
        assert forall|m: int| 0 <= m < pc.len() implies (#[trigger] pc[m]) < cached.len()
            && p(cached[pc[m] as int]) by {
            if m < pr.len() {
                assert(pc[m] == pr[m]);
                assert(rest[pr[m] as int] == cached[pr[m] as int]);
            }
        }
    }
}

/// Law: a later round retries exactly the untested sources and those that
/// failed on a network error, each once and in the original order.
pub proof fn lemma_retry_selection(cached: Seq<Cached>)
    requires
        cached.len() <= usize::MAX,
    ensures
        ({
            let r = positions(cached, |c: Cached| retryable_spec(c));
            &&& forall|m: int| 0 <= m < r.len() ==> (#[trigger] r[m]) < cached.len() && retryable_spec(cached[r[m] as int])
            &&& forall|i: int| 0 <= i < cached.len() && #[trigger] retryable_spec(cached[i]) ==> r.contains(i as usize)
            &&& forall|a: int, b: int| 0 <= a < b < r.len() ==> r[a] < r[b]
        }),
{
    let p = |c: Cached| retryable_spec(c);
    lemma_positions(cached, p);
    assert forall|i: int| 0 <= i < cached.len() && #[trigger] retryable_spec(cached[i]) implies positions(cached, p).contains(i as usize) by {
        assert(p(cached[i]));
    }
}

/// The positions `0..n`.
pub open spec fn all_positions(n: nat) -> Seq<usize> {
    Seq::new(n, |i: int| i as usize)
}

/// The sources a later round tests: when the cache could be read (`Some`,
/// one result per source), the retryable ones; when it could not, all `n`.
pub fn retry_positions(cached: Option<&Vec<Cached>>, n: usize) -> (r: Vec<usize>)
    requires
        cached matches Some(c) ==> c@.len() == n,
    ensures
        r@ == match cached {
            Some(c) => positions(c@, |c: Cached| retryable_spec(c)),
            None => all_positions(n as nat),
        },
{
    match cached {
        Some(c) => retryable_positions(c),
        None => {
            let mut r: Vec<usize> = Vec::new();
            let mut i: usize = 0;
            while i < n
                invariant
                    i <= n,
                    r@ == all_positions(i as nat),
                decreases n - i,
            {
                r.push(i);
                assert(r@ =~= all_positions((i + 1) as nat));
                i += 1;
            }
            r
        },
    }
}

/// Positions of the sources cached with status `status` (e.g. `passed`).
pub fn positions_with_status(cached: &Vec<Cached>, status: &str) -> (r: Vec<usize>)
    ensures
        r@ == positions(cached@, |c: Cached| status_is(c, status@)),
{
    let mut r: Vec<usize> = Vec::new();
    let mut i: usize = 0;
    while i < cached.len()
        invariant
            i <= cached@.len(),
            r@ == positions(cached@.take(i as int), |c: Cached| status_is(c, status@)),
        decreases cached.len() - i,
    {
        assert(cached@.take(i + 1).drop_last() =~= cached@.take(i as int));
        assert(cached@.take(i + 1).last() == cached@[i as int]);
        if status_eq(&cached[i], status) {
            r.push(i);
        }
        i += 1;
    }
    assert(cached@.take(cached@.len() as int) =~= cached@);
    r
}

// ───────────────────────────── dead domains ─────────────────────────────

/// The host part of a URL (third `/`-piece), lower-cased; empty if none.
pub open spec fn domain_spec(url: Seq<char>) -> Seq<char> {
    let pieces = split_char(url, '/');
    if pieces.len() > 2 {
        lowercase(pieces[2])
    } else {
        lowercase(seq![])
    }
}

pub fn domain_of(url: &str) -> (d: String)
    ensures
        d@ == domain_spec(url@),
{
    let pieces = split_char_exec(&chars_of(url), '/');
    if pieces.len() > 2 {
        proof {
            crate::text::lemma_chars_deep_view(pieces@[2]);
        }
        to_lowercase(string_of(&pieces[2]).as_str())
    } else {
        to_lowercase(string_of(&Vec::new()).as_str())
    }
}

/// Domains with at least one source cached as passed.
pub open spec fn passed_domains(urls: Seq<Seq<char>>, cached: Seq<Cached>) -> Seq<Seq<char>>
    decreases urls.len(),
{
    if urls.len() == 0 || cached.len() != urls.len() {
        seq![]
    } else {
        let d = domain_spec(urls.last());
        passed_domains(urls.drop_last(), cached.drop_last()) + if d.len() > 0 && status_is(
            cached.last(),
            "passed"@,
        ) {
            seq![d]
        } else {
            seq![]
        }
    }
}

/// A failed source on a domain where nothing passed is marked dead.
pub open spec fn dead_mark_spec(url: Seq<char>, c: Cached, passed: Seq<Seq<char>>) -> bool {
    let d = domain_spec(url);
    d.len() > 0 && !passed.contains(d) && status_is(c, "failed"@)
}

fn contains_string(v: &Vec<String>, s: &String) -> (b: bool)
    ensures
        b == v.deep_view().contains(s@),
{
    let mut i: usize = 0;
    while i < v.len()
        invariant
            i <= v@.len(),
            forall|j: int| 0 <= j < i ==> v.deep_view()[j] != s@,
        decreases v.len() - i,
    {
        if eq_exec(&chars_of(v[i].as_str()), &chars_of(s.as_str())) {
            assert(v.deep_view()[i as int] == s@);
            return true;
        }
        i += 1;
    }
    false
}

/// For each source, whether it is to be marked `dead_domain`: it failed, and
/// no source on its (non-empty) domain passed.
pub fn dead_domain_marks(urls: &Vec<String>, cached: &Vec<Cached>) -> (marks: Vec<bool>)
    requires
        urls@.len() == cached@.len(),
    ensures
        marks@.len() == urls@.len(),
        forall|i: int|
            0 <= i < marks@.len() ==> #[trigger] marks@[i] == dead_mark_spec(
                urls@[i]@,
                cached@[i],
                passed_domains(urls.deep_view(), cached@),
            ),
{
    let ghost uv = urls.deep_view();
    let mut passed: Vec<String> = Vec::new();
    let mut i: usize = 0;
    assert(passed.deep_view() =~= Seq::<Seq<char>>::empty());
    while i < urls.len()
        invariant
            i <= urls@.len(),
            urls@.len() == cached@.len(),
            uv == urls.deep_view(),
            passed.deep_view() == passed_domains(uv.take(i as int), cached@.take(i as int)),
        decreases urls.len() - i,
    {
        assert(uv.take(i + 1).drop_last() =~= uv.take(i as int));
        assert(cached@.take(i + 1).drop_last() =~= cached@.take(i as int));
        assert(uv.take(i + 1).last() == urls@[i as int]@);
        assert(cached@.take(i + 1).last() == cached@[i as int]);
        let d = domain_of(urls[i].as_str());
        if d.as_str().is_empty() {
        } else if status_eq(&cached[i], "passed") {
            let ghost before = passed;
            passed.push(d);
            proof {
                lemma_vec_push_deep_view(before, passed, d);
            }
        }
        assert(passed.deep_view() =~= passed_domains(uv.take(i + 1), cached@.take(i + 1)));
        i += 1;
    }
    assert(uv.take(urls@.len() as int) =~= uv);
    assert(cached@.take(urls@.len() as int) =~= cached@);
    let mut marks: Vec<bool> = Vec::new();
    let mut k: usize = 0;
    while k < urls.len()
        invariant
            k <= urls@.len(),
            urls@.len() == cached@.len(),
            passed.deep_view() == passed_domains(urls.deep_view(), cached@),
            marks@.len() == k,
            forall|j: int|
                0 <= j < k ==> #[trigger] marks@[j] == dead_mark_spec(
                    urls@[j]@,
                    cached@[j],
                    passed_domains(urls.deep_view(), cached@),
                ),
        decreases urls.len() - k,
    {
        let d = domain_of(urls[k].as_str());
        let mark = !d.as_str().is_empty() && !contains_string(&passed, &d) && status_eq(
            &cached[k],
            "failed",
        );
        marks.push(mark);
        k += 1;
    }
    marks
}

pub proof fn lemma_passed_domains_complete(urls: Seq<Seq<char>>, cached: Seq<Cached>, j: int)
    requires
        urls.len() == cached.len(),
        0 <= j < urls.len(),
        domain_spec(urls[j]).len() > 0,
        status_is(cached[j], "passed"@),
    ensures
        passed_domains(urls, cached).contains(domain_spec(urls[j])),
    decreases urls.len(),
{
    let n = urls.len();
    if j == n - 1 {
        let pd = passed_domains(urls, cached);
        assert(pd[pd.len() - 1] == domain_spec(urls[j]));
    } else {
        lemma_passed_domains_complete(urls.drop_last(), cached.drop_last(), j);
        let w = choose|w: int|
            0 <= w < passed_domains(urls.drop_last(), cached.drop_last()).len()
                && passed_domains(urls.drop_last(), cached.drop_last())[w] == domain_spec(urls[j]);
        assert(passed_domains(urls, cached)[w] == domain_spec(urls[j]));
    }
}

/// Law: a source marked dead failed, and no source on its domain passed.
pub proof fn lemma_dead_marks_are_sound(urls: Seq<Seq<char>>, cached: Seq<Cached>, i: int, j: int)
    requires
        urls.len() == cached.len(),
        0 <= i < urls.len(),
        0 <= j < urls.len(),
        dead_mark_spec(urls[i], cached[i], passed_domains(urls, cached)),
        domain_spec(urls[j]) == domain_spec(urls[i]),
    ensures
        status_is(cached[i], "failed"@),
        !status_is(cached[j], "passed"@),
{
    if status_is(cached[j], "passed"@) {
        lemma_passed_domains_complete(urls, cached, j);
    }
}

proof fn lemma_passed_domains_sound(urls: Seq<Seq<char>>, cached: Seq<Cached>, d: Seq<char>)
    requires
        urls.len() == cached.len(),
        passed_domains(urls, cached).contains(d),
    ensures
        exists|j: int|
            0 <= j < urls.len() && domain_spec(#[trigger] urls[j]) == d && status_is(cached[j], "passed"@),
    decreases urls.len(),
{
    let rest = passed_domains(urls.drop_last(), cached.drop_last());
    let n = urls.len();
    if rest.contains(d) {
        lemma_passed_domains_sound(urls.drop_last(), cached.drop_last(), d);
        let j = choose|j: int|
            0 <= j < urls.drop_last().len() && domain_spec(#[trigger] urls.drop_last()[j]) == d
                && status_is(cached.drop_last()[j], "passed"@);
        assert(urls[j] == urls.drop_last()[j]);
    } else {
        let w = choose|w: int| 0 <= w < passed_domains(urls, cached).len() && passed_domains(urls, cached)[w] == d;
        assert(w == rest.len()) by {
            if w < rest.len() {
                assert(passed_domains(urls, cached)[w] == rest[w]);
            }
        }
        assert(domain_spec(urls[n - 1]) == d);
    }
}

/// Law: a source is marked dead exactly when it failed, its domain is not
/// empty, and no source on that domain passed.
pub proof fn lemma_dead_marks_exact(urls: Seq<Seq<char>>, cached: Seq<Cached>, i: int)
    requires
        urls.len() == cached.len(),
        0 <= i < urls.len(),
    ensures
        dead_mark_spec(urls[i], cached[i], passed_domains(urls, cached)) <==> (
            domain_spec(urls[i]).len() > 0 && status_is(cached[i], "failed"@) && forall|j: int|
                0 <= j < urls.len() && domain_spec(#[trigger] urls[j]) == domain_spec(urls[i])
                    ==> !status_is(cached[j], "passed"@)),
{
    let d = domain_spec(urls[i]);
    let pd = passed_domains(urls, cached);
    if pd.contains(d) {
        lemma_passed_domains_sound(urls, cached, d);
    }
    if d.len() > 0 && !pd.contains(d) {
        assert forall|j: int|
            0 <= j < urls.len() && domain_spec(#[trigger] urls[j]) == d implies !status_is(
                cached[j],
                "passed"@,
            ) by {
            if status_is(cached[j], "passed"@) {
                lemma_passed_domains_complete(urls, cached, j);
            }
        }
    }
}

// ───────────────────────────── final tally ─────────────────────────────

#[derive(Debug, Clone, Copy, PartialEq, Eq, Structural)]
pub struct FinalTally {
    pub passed: usize,
    pub dead_domain: usize,
    pub failed: usize,
    pub js_api: usize,
    pub skipped: usize,
    pub untested: usize,
}

pub open spec fn count_status(cached: Seq<Cached>, s: Seq<char>) -> nat
    decreases cached.len(),
{
    if cached.len() == 0 {
        0
    } else {
        count_status(cached.drop_last(), s) + if status_is(cached.last(), s) {
            1nat
        } else {
            0nat
        }
    }
}

pub open spec fn tally_spec(cached: Seq<Cached>) -> FinalTally {
    let passed = count_status(cached, "passed"@);
    let dead = count_status(cached, "dead_domain"@);
    let failed = count_status(cached, "failed"@);
    let js_api = count_status(cached, "js_api"@);
    let skipped = count_status(cached, "skipped"@);
    FinalTally {
        passed: passed as usize,
        dead_domain: dead as usize,
        failed: failed as usize,
        js_api: js_api as usize,
        skipped: skipped as usize,
        untested: (cached.len() - passed - dead - failed - js_api - skipped) as usize,
    }
}

proof fn lemma_status_names_distinct()
    ensures
        "passed"@ != "dead_domain"@,
        "passed"@ != "failed"@,
        "passed"@ != "js_api"@,
        "passed"@ != "skipped"@,
        "dead_domain"@ != "failed"@,
        "dead_domain"@ != "js_api"@,
        "dead_domain"@ != "skipped"@,
        "failed"@ != "js_api"@,
        "failed"@ != "skipped"@,
        "js_api"@ != "skipped"@,
{
    reveal_strlit("passed");
    reveal_strlit("dead_domain");
    reveal_strlit("failed");
    reveal_strlit("js_api");
    reveal_strlit("skipped");
    assert("passed"@[0] != "dead_domain"@[0]);
    assert("passed"@[0] != "failed"@[0]);
    assert("passed"@[0] != "js_api"@[0]);
    assert("passed"@[0] != "skipped"@[0]);
    assert("dead_domain"@[0] != "failed"@[0]);
    assert("dead_domain"@[0] != "js_api"@[0]);
    assert("dead_domain"@[0] != "skipped"@[0]);
    assert("failed"@[0] != "js_api"@[0]);
    assert("failed"@[0] != "skipped"@[0]);
    assert("js_api"@[0] != "skipped"@[0]);
}

proof fn lemma_status_counts_bounded(cached: Seq<Cached>)
    ensures
        count_status(cached, "passed"@) + count_status(cached, "dead_domain"@) + count_status(
            cached,
            "failed"@,
        ) + count_status(cached, "js_api"@) + count_status(cached, "skipped"@) <= cached.len(),
    decreases cached.len(),
{
    lemma_status_names_distinct();
    if cached.len() > 0 {
        lemma_status_counts_bounded(cached.drop_last());
    }
}

/// Law: the final tally's six counts add up to the number of sources.
pub proof fn lemma_tally_sums_to_total(cached: Seq<Cached>)
    requires
        cached.len() <= usize::MAX,
    ensures
        ({
            let t = tally_spec(cached);
            t.passed + t.dead_domain + t.failed + t.js_api + t.skipped + t.untested == cached.len()
        }),
{
    lemma_status_counts_bounded(cached);
}

/// Per-status counts over the eligible sources; the rest are untested.
pub fn final_tally(cached: &Vec<Cached>) -> (t: FinalTally)
    ensures
        t == tally_spec(cached@),
{
    let mut passed: usize = 0;
    let mut dead: usize = 0;
    let mut failed: usize = 0;
    let mut js_api: usize = 0;
    let mut skipped: usize = 0;
    let mut i: usize = 0;
    while i < cached.len()
        invariant
            i <= cached@.len(),
            passed == count_status(cached@.take(i as int), "passed"@),
            dead == count_status(cached@.take(i as int), "dead_domain"@),
            failed == count_status(cached@.take(i as int), "failed"@),
            js_api == count_status(cached@.take(i as int), "js_api"@),
            skipped == count_status(cached@.take(i as int), "skipped"@),
            passed + dead + failed + js_api + skipped <= i,
        decreases cached.len() - i,
    {
        proof {
            lemma_status_counts_bounded(cached@.take(i + 1));
        }
        assert(cached@.take(i + 1).drop_last() =~= cached@.take(i as int));
        assert(cached@.take(i + 1).last() == cached@[i as int]);
        let c = &cached[i];
        if status_eq(c, "passed") {
            passed += 1;
        }
        if status_eq(c, "dead_domain") {
            dead += 1;
        }
        if status_eq(c, "failed") {
            failed += 1;
        }
        if status_eq(c, "js_api") {
            js_api += 1;
        }
        if status_eq(c, "skipped") {
            skipped += 1;
        }
        i += 1;
    }
    assert(cached@.take(cached@.len() as int) =~= cached@);
    proof {
        lemma_status_counts_bounded(cached@);
    }
    let untested = cached.len() - passed - dead - failed - js_api - skipped;
    FinalTally { passed, dead_domain: dead, failed, js_api, skipped, untested }
}

// ───────────────────────────── source list ─────────────────────────────

/// The first `.json` link inside the first list item that has a paragraph
/// mentioning 「全量书源」 (and such a link).
pub open spec fn source_url_from_items_spec(items: Seq<(Seq<Seq<char>>, Seq<Option<Seq<char>>>)>) -> Option<
    Seq<char>,
>
    decreases items.len(),
{
    if items.len() == 0 {
        None
    } else {
        let (texts, hrefs) = items[0];
        let here = if exists|k: int| 0 <= k < texts.len() && contains(texts[k], "全量书源"@) {
            first_json_href(hrefs)
        } else {
            None
        };
        match here {
            Some(h) => Some(h),
            None => source_url_from_items_spec(items.drop_first()),
        }
    }
}

pub open spec fn first_json_href(hrefs: Seq<Option<Seq<char>>>) -> Option<Seq<char>>
    decreases hrefs.len(),
{
    if hrefs.len() == 0 {
        None
    } else {
        match hrefs[0] {
            Some(h) => if ends_with(h, ".json"@) {
                Some(h)
            } else {
                first_json_href(hrefs.drop_first())
            },
            None => first_json_href(hrefs.drop_first()),
        }
    }
}

fn mentions_full_list(texts: &Vec<String>) -> (b: bool)
    ensures
        b == exists|k: int|
            0 <= k < texts.deep_view().len() && contains(texts.deep_view()[k], "全量书源"@),
{
    let marker = chars_of("全量书源");
    let mut k: usize = 0;
    while k < texts.len()
        invariant
            k <= texts@.len(),
            marker@ == "全量书源"@,
            forall|m: int| 0 <= m < k ==> !contains(#[trigger] texts.deep_view()[m], marker@),
        decreases texts.len() - k,
    {
        if contains_exec(&chars_of(texts[k].as_str()), &marker) {
            assert(texts.deep_view()[k as int] == texts@[k as int]@);
            return true;
        }
        k += 1;
    }
    false
}

fn first_json_href_exec(hrefs: &Vec<Option<String>>) -> (r: Option<String>)
    ensures
        r.deep_view() == first_json_href(hrefs.deep_view()),
{
    let ghost hv = hrefs.deep_view();
    let json = chars_of(".json");
    let mut j: usize = 0;
    assert(hv.skip(0) =~= hv);
    while j < hrefs.len()
        invariant
            j <= hrefs@.len(),
            hv == hrefs.deep_view(),
            json@ == ".json"@,
            first_json_href(hv) == first_json_href(hv.skip(j as int)),
        decreases hrefs.len() - j,
    {
        assert(hv.skip(j as int)[0] == hrefs@[j as int].deep_view());
        assert(hv.skip(j as int).drop_first() =~= hv.skip(j + 1));
        if let Some(h) = &hrefs[j] {
            if ends_with_exec(&chars_of(h.as_str()), &json) {
                return Some(string_of(&chars_of(h.as_str())));
            }
        }
        j += 1;
    }
    assert(hv.skip(hrefs@.len() as int) =~= Seq::<Option<Seq<char>>>::empty());
    None
}

/// The published full source list's URL, from the `li` items of the index page.
pub fn source_url_from_items(items: &Vec<(Vec<String>, Vec<Option<String>>)>) -> (r: Option<String>)
    ensures
        r.deep_view() == source_url_from_items_spec(items.deep_view()),
{
    let ghost iv = items.deep_view();
    let mut i: usize = 0;
    assert(iv.skip(0) =~= iv);
    while i < items.len()
        invariant
            i <= items@.len(),
            iv == items.deep_view(),
            source_url_from_items_spec(iv) == source_url_from_items_spec(iv.skip(i as int)),
        decreases items.len() - i,
    {
        let (texts, hrefs) = &items[i];
        assert(iv.skip(i as int)[0] == (texts.deep_view(), hrefs.deep_view()));
        assert(iv.skip(i as int).drop_first() =~= iv.skip(i + 1));
        if mentions_full_list(texts) {
            if let Some(h) = first_json_href_exec(hrefs) {
                return Some(h);
            }
        }
        i += 1;
    }
    assert(iv.skip(items@.len() as int) =~= Seq::<(Seq<Seq<char>>, Seq<Option<Seq<char>>>)>::empty());
    None
}

/// The texts of matched elements.
pub open spec fn texts_of(ms: Seq<(Seq<(Seq<char>, Seq<char>)>, Seq<char>)>) -> Seq<Seq<char>> {
    Seq::new(ms.len(), |i: int| ms[i].1)
}

/// The `href` of each matched element.
pub open spec fn hrefs_of(ms: Seq<(Seq<(Seq<char>, Seq<char>)>, Seq<char>)>) -> Seq<Option<Seq<char>>> {
    Seq::new(ms.len(), |i: int| attr_lookup(ms[i].0, "href"@))
}

/// The index page's `li` items: the texts of the `p` elements and the
/// `href`s of the `a[href]` elements in each.
pub open spec fn list_items_spec(
    ps: Option<Seq<Seq<(Seq<(Seq<char>, Seq<char>)>, Seq<char>)>>>,
    links: Option<Seq<Seq<(Seq<(Seq<char>, Seq<char>)>, Seq<char>)>>>,
) -> Seq<(Seq<Seq<char>>, Seq<Option<Seq<char>>>)> {
    match (ps, links) {
        (Some(p), Some(a)) => Seq::new(
            p.len(),
            |i: int|
                (
                    texts_of(p[i]),
                    if i < a.len() {
                        hrefs_of(a[i])
                    } else {
                        seq![]
                    },
                ),
        ),
        _ => seq![],
    }
}

pub open spec fn page_items(html: Seq<char>) -> Seq<(Seq<Seq<char>>, Seq<Option<Seq<char>>>)> {
    list_items_spec(
        html_select_nested(html, "li"@, "p"@),
        html_select_nested(html, "li"@, "a[href]"@),
    )
}

fn texts_exec(ms: &Vec<(Vec<(String, String)>, String)>) -> (r: Vec<String>)
    ensures
        r.deep_view() == texts_of(ms.deep_view()),
{
    let ghost mv = ms.deep_view();
    let mut r: Vec<String> = Vec::new();
    let mut i: usize = 0;
    while i < ms.len()
        invariant
            i <= ms@.len(),
            mv == ms.deep_view(),
            r.deep_view() == texts_of(mv).take(i as int),
        decreases ms.len() - i,
    {
        assert(mv[i as int].1 == ms@[i as int].1@);
        let t = string_of(&chars_of(ms[i].1.as_str()));
        let ghost before = r;
        r.push(t);
        proof {
            lemma_vec_push_deep_view(before, r, t);
        }
        assert(r.deep_view() =~= texts_of(mv).take(i + 1));
        i += 1;
    }
    assert(texts_of(mv).take(ms@.len() as int) =~= texts_of(mv));
    r
}

fn hrefs_exec(ms: &Vec<(Vec<(String, String)>, String)>) -> (r: Vec<Option<String>>)
    ensures
        r.deep_view() == hrefs_of(ms.deep_view()),
{
    let ghost mv = ms.deep_view();
    let mut r: Vec<Option<String>> = Vec::new();
    let mut i: usize = 0;
    while i < ms.len()
        invariant
            i <= ms@.len(),
            mv == ms.deep_view(),
            r.deep_view() == hrefs_of(mv).take(i as int),
        decreases ms.len() - i,
    {
        assert(mv[i as int].0 == ms@[i as int].0.deep_view());
        let h = attr_lookup_exec(&ms[i].0, "href");
        proof {
            reveal_strlit("href");
        }
        let ghost before = r;
        r.push(h);
        proof {
            lemma_vec_push_deep_view(before, r, h);
        }
        assert(r.deep_view() =~= hrefs_of(mv).take(i + 1));
        i += 1;
    }
    assert(hrefs_of(mv).take(ms@.len() as int) =~= hrefs_of(mv));
    r
}

/// The `li` items of the index page `html` (see [`page_items`]).
fn list_items(html: &str) -> (r: Vec<(Vec<String>, Vec<Option<String>>)>)
    ensures
        r.deep_view() == page_items(html@),
{
    let ps = select_nested(html, "li", "p");
    let links = select_nested(html, "li", "a[href]");
    let mut r: Vec<(Vec<String>, Vec<Option<String>>)> = Vec::new();
    match (ps, links) {
        (Some(p), Some(a)) => {
            let ghost pv = p.deep_view();
            let ghost av = a.deep_view();
            let mut i: usize = 0;
            while i < p.len()
                invariant
                    i <= p@.len(),
                    pv == p.deep_view(),
                    av == a.deep_view(),
                    r.deep_view() == list_items_spec(Some(pv), Some(av)).take(i as int),
                decreases p.len() - i,
            {
                assert(pv[i as int] == p@[i as int].deep_view());
                let texts = texts_exec(&p[i]);
                let hrefs = if i < a.len() {
                    assert(av[i as int] == a@[i as int].deep_view());
                    hrefs_exec(&a[i])
                } else {
                    let e: Vec<Option<String>> = Vec::new();
                    assert(e.deep_view() =~= Seq::<Option<Seq<char>>>::empty());
                    e
                };
                let item = (texts, hrefs);
                let ghost before = r;
                r.push(item);
                proof {
                    lemma_vec_push_deep_view(before, r, item);
                }
                assert(r.deep_view() =~= list_items_spec(Some(pv), Some(av)).take(i + 1));
                i += 1;
            }
            assert(list_items_spec(Some(pv), Some(av)).take(p@.len() as int) =~= list_items_spec(
                Some(pv),
                Some(av),
            ));
            r
        },
        _ => {
            assert(r.deep_view() =~= page_items(html@));
            r
        },
    }
}

/// The published full source list's URL on the index page `html`.
pub fn discover_source_url(html: &str) -> (r: Option<String>)
    ensures
        r.deep_view() == source_url_from_items_spec(page_items(html@)),
{
    source_url_from_items(&list_items(html))
}

/// Whether the remote source list must be downloaded: unless the last one
/// downloaded is the same URL and a local copy exists.
pub open spec fn needs_download_spec(last_url: Option<Seq<char>>, remote_url: Seq<char>, has_local: bool) -> bool {
    !(last_url matches Some(last) && trim(last) == remote_url && has_local)
}

pub fn needs_download(last_url: &Option<String>, remote_url: &str, has_local: bool) -> (b: bool)
    ensures
        b == needs_download_spec(last_url.deep_view(), remote_url@, has_local),
{
    match last_url {
        Some(last) => !(eq_exec(&trim_chars(&chars_of(last.as_str())), &chars_of(remote_url))
            && has_local),
        None => true,
    }
}

// ───────────────────────────── configuration ─────────────────────────────

/// Test books from `[[search]]` entries `(name, author)`: entries without a
/// name are dropped; a missing author is empty.
pub open spec fn test_books_spec(entries: Seq<(Option<Seq<char>>, Option<Seq<char>>)>) -> Seq<
    (Seq<char>, Seq<char>),
>
    decreases entries.len(),
{
    if entries.len() == 0 {
        seq![]
    } else {
        let (name, author) = entries.last();
        let n = match name {
            Some(x) => x,
            None => seq![],
        };
        let a = match author {
            Some(x) => x,
            None => seq![],
        };
        test_books_spec(entries.drop_last()) + if n.len() > 0 {
            seq![(n, a)]
        } else {
            seq![]
        }
    }
}

pub open spec fn book_view(b: TestBook) -> (Seq<char>, Seq<char>) {
    (b.name@, b.author@)
}

fn text_or_empty(s: &Option<String>) -> (r: String)
    ensures
        r@ == (match s.deep_view() {
            Some(x) => x,
            None => seq![],
        }),
{
    match s {
        Some(x) => string_of(&chars_of(x.as_str())),
        None => string_of(&Vec::new()),
    }
}

pub fn test_books_from_entries(entries: &Vec<(Option<String>, Option<String>)>) -> (r: Vec<TestBook>)
    ensures
        r@.map_values(|b: TestBook| book_view(b)) == test_books_spec(entries.deep_view()),
        forall|i: int| 0 <= i < r@.len() ==> (#[trigger] r@[i]).domain_hint is None,
{
    let ghost ev = entries.deep_view();
    let mut r: Vec<TestBook> = Vec::new();
    let mut i: usize = 0;
    while i < entries.len()
        invariant
            i <= entries@.len(),
            ev == entries.deep_view(),
            r@.map_values(|b: TestBook| book_view(b)) == test_books_spec(ev.take(i as int)),
            forall|k: int| 0 <= k < r@.len() ==> (#[trigger] r@[k]).domain_hint is None,
        decreases entries.len() - i,
    {
        assert(ev.take(i + 1).drop_last() =~= ev.take(i as int));
        assert(ev.take(i + 1).last() == ev[i as int]);
        let (name, author) = &entries[i];
        let n = text_or_empty(name);
        if !n.as_str().is_empty() {
            let book = TestBook { name: n, author: text_or_empty(author), domain_hint: None };
            r.push(book);
        }
        assert(r@.map_values(|b: TestBook| book_view(b)) =~= test_books_spec(ev.take(i + 1)));
        i += 1;
    }
    assert(ev.take(entries@.len() as int) =~= ev);
    r
}

/// The generic keywords tried after a source's own and hinted ones.
pub fn default_generic_keywords() -> (r: Vec<String>)
    ensures
        r.deep_view() == seq!["重生"@, "系统"@, "穿越"@],
{
    let r = vec![
        string_of(&chars_of("重生")),
        string_of(&chars_of("系统")),
        string_of(&chars_of("穿越")),
    ];
    assert(r.deep_view() =~= seq!["重生"@, "系统"@, "穿越"@]);
    r
}

/// The test configuration for `test_books`, with the generic keywords, Node
/// allowed and failed sources not retested.
pub fn test_config_with_books(
    concurrency: usize,
    timeout_secs: u64,
    force: bool,
    test_books: Vec<TestBook>,
) -> (c: TestConfig)
    ensures
        c.concurrency == concurrency,
        c.timeout_secs == timeout_secs,
        c.force == force,
        c.test_books == test_books,
        c.generic_keywords.deep_view() == seq!["重生"@, "系统"@, "穿越"@],
        !c.no_node,
        !c.retry_missed,
{
    TestConfig {
        concurrency,
        timeout_secs,
        test_books,
        generic_keywords: default_generic_keywords(),
        no_node: false,
        force,
        retry_missed: false,
    }
}

/// The test configuration of a `full` run from the text of `config.toml`:
/// `None` when the text is not TOML; else one test book per `[[search]]`
/// entry that has a name.
pub fn build_test_config(
    concurrency: usize,
    timeout_secs: u64,
    force: bool,
    config_text: &str,
) -> (r: Option<TestConfig>)
    ensures
        r is Some <==> toml_parse(config_text@) is Some,
        r matches Some(c) ==> {
            &&& c.concurrency == concurrency
            &&& c.timeout_secs == timeout_secs
            &&& c.force == force
            &&& c.test_books@.map_values(|b: TestBook| book_view(b)) == test_books_spec(
                search_entries_spec(toml_parse(config_text@)->0),
            )
            &&& forall|i: int|
                0 <= i < c.test_books@.len() ==> (#[trigger] c.test_books@[i]).domain_hint is None
            &&& c.generic_keywords.deep_view() == seq!["重生"@, "系统"@, "穿越"@]
            &&& !c.no_node
            &&& !c.retry_missed
        },
{
    match parse_toml(config_text) {
        Some(root) => {
            let entries = search_entries(&root);
            let books = test_books_from_entries(&entries);
            Some(test_config_with_books(concurrency, timeout_secs, force, books))
        },
        None => None,
    }
}

} // verus!
