//! The decisions of a search test: which keywords to try, what a cached
//! result means, whether a source can be tested at all, and whether a
//! response passes. (Requests, the cache and the worker pool are run by the
//! program.)
use vstd::prelude::*;
use crate::rule_dsl::combinator::{is_blank, is_blank_exec};
use crate::rule_dsl::{
    extract_results, extract_results_accepts, extract_results_spec, has_valid_results,
    has_valid_results_spec,
};
use crate::text::{
    chars_of, contains, contains_exec, eq_exec, lemma_vec_push_deep_view, lowercase, starts_with,
    starts_with_exec, string_of, to_lowercase, trim, trim_chars,
};
use crate::search_url::{build_request, build_request_spec, get_request, RequestSpec, RequestView};
use crate::types::{BookSource, SearchRule};

verus! {

#[derive(Clone)]
pub struct TestConfig {
    pub concurrency: usize,
    pub timeout_secs: u64,
    pub test_books: Vec<TestBook>,
    pub generic_keywords: Vec<String>,
    pub no_node: bool,
    pub force: bool,
    pub retry_missed: bool,
}

#[derive(Clone, Debug)]
pub struct TestBook {
    pub name: String,
    pub author: String,
    pub domain_hint: Option<String>,
}

pub struct TestSummary {
    pub total: usize,
    pub passed: usize,
    pub failed: usize,
    pub js_api: Vec<BookSource>,
}

// ───────────────────────────── keywords ─────────────────────────────

/// `k` appended unless it is already there.
pub open spec fn add_if_new(kws: Seq<Seq<char>>, k: Seq<char>) -> Seq<Seq<char>> {
    if kws.contains(k) {
        kws
    } else {
        kws.push(k)
    }
}

/// Candidates added in order, skipping repeats, until there are three.
pub open spec fn fill_to_three(kws: Seq<Seq<char>>, cands: Seq<Seq<char>>) -> Seq<Seq<char>>
    decreases cands.len(),
{
    if kws.len() >= 3 || cands.len() == 0 {
        kws
    } else {
        fill_to_three(add_if_new(kws, cands[0]), cands.drop_first())
    }
}

/// Names of the books whose domain hint occurs in `url`, added in order
/// while there are fewer than three keywords.
pub open spec fn add_hinted(kws: Seq<Seq<char>>, books: Seq<TestBook>, url: Seq<char>) -> Seq<
    Seq<char>,
>
    decreases books.len(),
{
    if books.len() == 0 {
        kws
    } else {
        let b = books[0];
        let next = match b.domain_hint {
            Some(h) => if kws.len() < 3 && contains(url, lowercase(h@)) {
                add_if_new(kws, b.name@)
            } else {
                kws
            },
            None => kws,
        };
        add_hinted(next, books.drop_first(), url)
    }
}

/// The source's own `checkKeyWord`, trimmed, when it is not blank.
pub open spec fn check_keyword(source: BookSource) -> Seq<Seq<char>> {
    match source.ruleSearch {
        Some(rs) => match rs.checkKeyWord {
            Some(kw) => if trim(kw@).len() > 0 {
                seq![trim(kw@)]
            } else {
                seq![]
            },
            None => seq![],
        },
        None => seq![],
    }
}

pub open spec fn book_names(books: Seq<TestBook>) -> Seq<Seq<char>> {
    Seq::new(books.len(), |i: int| books[i].name@)
}

/// Keywords to search with: the source's check keyword, then books hinted
/// for its domain, then the configured test books and, after them, the
/// generic keywords, up to three.
pub open spec fn select_keywords_spec(
    source: BookSource,
    books: Seq<TestBook>,
    generic: Seq<Seq<char>>,
) -> Seq<Seq<char>> {
    let first = check_keyword(source);
    let hinted = add_hinted(first, books, lowercase(source.bookSourceUrl@));
    fill_to_three(fill_to_three(hinted, book_names(books)), generic)
}

fn contains_keyword(kws: &Vec<String>, k: &[char]) -> (b: bool)
    ensures
        b == kws.deep_view().contains(k@),
{
    let mut i: usize = 0;
    while i < kws.len()
        invariant
            i <= kws@.len(),
            forall|j: int| 0 <= j < i ==> kws.deep_view()[j] != k@,
        decreases kws.len() - i,
    {
        if eq_exec(&chars_of(kws[i].as_str()), k) {
            assert(kws.deep_view()[i as int] == k@);
            return true;
        }
        i += 1;
    }
    false
}

fn push_if_new(kws: &mut Vec<String>, k: &[char])
    ensures
        final(kws).deep_view() == add_if_new(old(kws).deep_view(), k@),
{
    if !contains_keyword(kws, k) {
        let s = string_of(k);
        let ghost before = *kws;
        kws.push(s);
        proof {
            lemma_vec_push_deep_view(before, *kws, s);
        }
    }
}

fn fill_from(kws: &mut Vec<String>, cands: &Vec<String>)
    ensures
        final(kws).deep_view() == fill_to_three(old(kws).deep_view(), cands.deep_view()),
{
    let ghost cv = cands.deep_view();
    let ghost start = kws.deep_view();
    let mut i: usize = 0;
    assert(cv.skip(0) =~= cv);
    while i < cands.len()
        invariant
            i <= cands@.len(),
            cv == cands.deep_view(),
            start == old(kws).deep_view(),
            fill_to_three(start, cv) == fill_to_three(kws.deep_view(), cv.skip(i as int)),
        decreases cands.len() - i,
    {
        if kws.len() >= 3 {
            assert(kws.deep_view().len() >= 3);
            return;
        }
        assert(cv.skip(i as int)[0] == cands@[i as int]@);
        assert(cv.skip(i as int).drop_first() =~= cv.skip(i + 1));
        push_if_new(kws, &chars_of(cands[i].as_str()));
        i += 1;
    }
    assert(cv.skip(cands@.len() as int) =~= Seq::<Seq<char>>::empty());
}

fn names_of(books: &Vec<TestBook>) -> (r: Vec<String>)
    ensures
        r.deep_view() == book_names(books@),
{
    let mut r: Vec<String> = Vec::new();
    let mut i: usize = 0;
    while i < books.len()
        invariant
            i <= books@.len(),
            r.deep_view() == book_names(books@.take(i as int)),
        decreases books.len() - i,
    {
        let s = books[i].name.clone();
        let ghost before = r;
        r.push(s);
        proof {
            lemma_vec_push_deep_view(before, r, s);
        }
        assert(r.deep_view() =~= book_names(books@.take(i + 1)));
        i += 1;
    }
    assert(books@.take(books@.len() as int) =~= books@);
    r
}

/// Select up to three search keywords for a source.
pub fn select_keywords(source: &BookSource, config: &TestConfig) -> (r: Vec<String>)
    ensures
        r.deep_view() == select_keywords_spec(
            *source,
            config.test_books@,
            config.generic_keywords.deep_view(),
        ),
{
    let mut keywords: Vec<String> = Vec::new();
    let ghost empty = keywords.deep_view();
    assert(empty =~= Seq::<Seq<char>>::empty());
    // Priority 1: checkKeyWord from ruleSearch
    if let Some(rs) = &source.ruleSearch {
        if let Some(kw) = &rs.checkKeyWord {
            let trimmed = trim_chars(&chars_of(kw.as_str()));
            if trimmed.len() > 0 {
                push_if_new(&mut keywords, &trimmed);
            }
        }
    }
    assert(keywords.deep_view() =~= check_keyword(*source));
    // Priority 2: domain-matched test books
    let url = chars_of(to_lowercase(source.bookSourceUrl.as_str()).as_str());
    let books = &config.test_books;
    let ghost bv = books@;
    let ghost first = keywords.deep_view();
    let mut i: usize = 0;
    assert(bv.skip(0) =~= bv);
    while i < books.len()
        invariant
            i <= books@.len(),
            bv == books@,
            url@ == lowercase(source.bookSourceUrl@),
            add_hinted(first, bv, url@) == add_hinted(keywords.deep_view(), bv.skip(i as int), url@),
        decreases books.len() - i,
    {
        assert(bv.skip(i as int)[0] == books@[i as int]);
        assert(bv.skip(i as int).drop_first() =~= bv.skip(i + 1));
        if let Some(hint) = &books[i].domain_hint {
            let h = chars_of(to_lowercase(hint.as_str()).as_str());
            if keywords.len() < 3 && contains_exec(&url, &h) {
                push_if_new(&mut keywords, &chars_of(books[i].name.as_str()));
            }
        }
        i += 1;
    }
    assert(bv.skip(books@.len() as int) =~= Seq::<TestBook>::empty());
    // Fill up to 3 with the configured test books, then generic keywords
    fill_from(&mut keywords, &names_of(books));
    fill_from(&mut keywords, &config.generic_keywords);
    keywords
}

// ───────────────────────────── laws on keywords ─────────────────────────────

pub open spec fn all_distinct(kws: Seq<Seq<char>>) -> bool {
    forall|i: int, j: int| 0 <= i < j < kws.len() ==> kws[i] != kws[j]
}

proof fn lemma_add_if_new_distinct(kws: Seq<Seq<char>>, k: Seq<char>)
    requires
        all_distinct(kws),
    ensures
        all_distinct(add_if_new(kws, k)),
        add_if_new(kws, k).len() <= kws.len() + 1,
{
    if !kws.contains(k) {
        assert forall|i: int, j: int| 0 <= i < j < kws.len() + 1 implies kws.push(k)[i] != kws.push(
            k,
        )[j] by {
            if j == kws.len() {
                assert(kws[i] != k);
            }
        }
    }
}

proof fn lemma_fill_distinct(kws: Seq<Seq<char>>, cands: Seq<Seq<char>>)
    requires
        all_distinct(kws),
    ensures
        all_distinct(fill_to_three(kws, cands)),
        kws.len() <= 3 ==> fill_to_three(kws, cands).len() <= 3,
        kws.len() > 3 ==> fill_to_three(kws, cands) == kws,
    decreases cands.len(),
{
    if kws.len() < 3 && cands.len() > 0 {
        lemma_add_if_new_distinct(kws, cands[0]);
        lemma_fill_distinct(add_if_new(kws, cands[0]), cands.drop_first());
    }
}

proof fn lemma_hinted_distinct(kws: Seq<Seq<char>>, books: Seq<TestBook>, url: Seq<char>)
    requires
        all_distinct(kws),
    ensures
        all_distinct(add_hinted(kws, books, url)),
        kws.len() <= 3 ==> add_hinted(kws, books, url).len() <= 3,
    decreases books.len(),
{
    if books.len() > 0 {
        let b = books[0];
        let next = match b.domain_hint {
            Some(h) => if kws.len() < 3 && contains(url, lowercase(h@)) {
                add_if_new(kws, b.name@)
            } else {
                kws
            },
            None => kws,
        };
        lemma_add_if_new_distinct(kws, b.name@);
        lemma_hinted_distinct(next, books.drop_first(), url);
    }
}

/// Law: the selected keywords never repeat, and there are at most three.
pub proof fn lemma_keywords_distinct_and_bounded(
    source: BookSource,
    books: Seq<TestBook>,
    generic: Seq<Seq<char>>,
)
    ensures
        all_distinct(select_keywords_spec(source, books, generic)),
        select_keywords_spec(source, books, generic).len() <= 3,
{
    let first = check_keyword(source);
    let hinted = add_hinted(first, books, lowercase(source.bookSourceUrl@));
    lemma_hinted_distinct(first, books, lowercase(source.bookSourceUrl@));
    lemma_fill_distinct(hinted, book_names(books));
    lemma_fill_distinct(fill_to_three(hinted, book_names(books)), generic);
}

/// `pre` is a prefix of `s`.
pub open spec fn is_prefix(pre: Seq<Seq<char>>, s: Seq<Seq<char>>) -> bool {
    pre.len() <= s.len() && forall|i: int| 0 <= i < pre.len() ==> #[trigger] s[i] == pre[i]
}

/// Every element of `s` is in `a` or in `b`.
pub open spec fn drawn_from(s: Seq<Seq<char>>, a: Seq<Seq<char>>, b: Seq<Seq<char>>) -> bool {
    forall|i: int| 0 <= i < s.len() ==> a.contains(#[trigger] s[i]) || b.contains(s[i])
}

proof fn lemma_fill_keeps_and_draws(kws: Seq<Seq<char>>, cands: Seq<Seq<char>>)
    ensures
        is_prefix(kws, fill_to_three(kws, cands)),
        drawn_from(fill_to_three(kws, cands), kws, cands),
        kws.len() < 3 && cands.len() > 0 && !kws.contains(cands[0]) ==> fill_to_three(kws, cands).len()
            > kws.len() && fill_to_three(kws, cands)[kws.len() as int] == cands[0],
    decreases cands.len(),
{
    if kws.len() < 3 && cands.len() > 0 {
        let next = add_if_new(kws, cands[0]);
        let rest = cands.drop_first();
        lemma_fill_keeps_and_draws(next, rest);
        let r = fill_to_three(kws, cands);
        assert forall|i: int| 0 <= i < r.len() implies kws.contains(#[trigger] r[i]) || cands.contains(r[i]) by {
            if next.contains(r[i]) {
                let j = choose|j: int| 0 <= j < next.len() && next[j] == r[i];
                if j < kws.len() {
                    assert(kws[j] == r[i]);
                } else {
                    assert(cands[0] == r[i]);
                }
            } else {
                assert(rest.contains(r[i]));
                let j = choose|j: int| 0 <= j < rest.len() && rest[j] == r[i];
                assert(cands[j + 1] == r[i]);
            }
        }
        if !kws.contains(cands[0]) {
            assert(next[kws.len() as int] == cands[0]);
            assert(next.len() == kws.len() + 1);
        }
    }
}

proof fn lemma_hinted_keeps_and_draws(kws: Seq<Seq<char>>, books: Seq<TestBook>, url: Seq<char>)
    ensures
        is_prefix(kws, add_hinted(kws, books, url)),
        drawn_from(add_hinted(kws, books, url), kws, book_names(books)),
        (forall|i: int| 0 <= i < books.len() ==> (#[trigger] books[i]).domain_hint is None)
            ==> add_hinted(kws, books, url) == kws,
    decreases books.len(),
{
    if books.len() > 0 {
        let b = books[0];
        let next = match b.domain_hint {
            Some(h) => if kws.len() < 3 && contains(url, lowercase(h@)) {
                add_if_new(kws, b.name@)
            } else {
                kws
            },
            None => kws,
        };
        let rest = books.drop_first();
        lemma_hinted_keeps_and_draws(next, rest, url);
        let r = add_hinted(kws, books, url);
        assert forall|i: int| 0 <= i < r.len() implies kws.contains(#[trigger] r[i]) || book_names(books).contains(r[i]) by {
            if next.contains(r[i]) {
                let j = choose|j: int| 0 <= j < next.len() && next[j] == r[i];
                if j < kws.len() {
                    assert(kws[j] == r[i]);
                } else {
                    assert(book_names(books)[0] == r[i]);
                }
            } else {
                assert(book_names(rest).contains(r[i]));
                let j = choose|j: int| 0 <= j < book_names(rest).len() && book_names(rest)[j] == r[i];
                assert(book_names(books)[j + 1] == r[i]);
            }
        }
        if forall|i: int| 0 <= i < books.len() ==> (#[trigger] books[i]).domain_hint is None {
            assert(books[0].domain_hint is None);
            assert forall|i: int| 0 <= i < rest.len() implies (#[trigger] rest[i]).domain_hint is None by {
                assert(rest[i] == books[i + 1]);
            }
        }
    }
}

/// Law: the source's own check keyword (trimmed, when not blank) is tried
/// first; every keyword is that check keyword, a test book's name or a
/// generic keyword; and with no check keyword and no hinted book, the first
/// configured test book is tried first.
pub proof fn lemma_keyword_order(source: BookSource, books: Seq<TestBook>, generic: Seq<Seq<char>>)
    ensures
        ({
            let r = select_keywords_spec(source, books, generic);
            &&& check_keyword(source).len() > 0 ==> r.len() > 0 && r[0] == check_keyword(source)[0]
            &&& forall|i: int| 0 <= i < r.len() ==> check_keyword(source).contains(#[trigger] r[i])
                || book_names(books).contains(r[i]) || generic.contains(r[i])
            &&& (check_keyword(source).len() == 0 && books.len() > 0 && forall|i: int|
                0 <= i < books.len() ==> (#[trigger] books[i]).domain_hint is None) ==> r.len() > 0
                && r[0] == books[0].name@
        }),
{
    let first = check_keyword(source);
    let url = lowercase(source.bookSourceUrl@);
    let hinted = add_hinted(first, books, url);
    let names = book_names(books);
    let mid = fill_to_three(hinted, names);
    let r = fill_to_three(mid, generic);
    lemma_hinted_keeps_and_draws(first, books, url);
    lemma_fill_keeps_and_draws(hinted, names);
    lemma_fill_keeps_and_draws(mid, generic);
    assert forall|i: int| 0 <= i < r.len() implies first.contains(#[trigger] r[i])
        || names.contains(r[i]) || generic.contains(r[i]) by {
        if mid.contains(r[i]) {
            let j = choose|j: int| 0 <= j < mid.len() && mid[j] == r[i];
            if hinted.contains(mid[j]) {
                let k = choose|k: int| 0 <= k < hinted.len() && hinted[k] == mid[j];
                assert(first.contains(hinted[k]) || names.contains(hinted[k]));
            }
        }
    }
    if first.len() > 0 {
        assert(hinted[0] == first[0]);
        assert(mid[0] == hinted[0]);
    }
    if first.len() == 0 && books.len() > 0 && forall|i: int|
        0 <= i < books.len() ==> (#[trigger] books[i]).domain_hint is None {
        assert(hinted == first);
        assert(hinted =~= Seq::<Seq<char>>::empty());
        assert(!hinted.contains(names[0]));
        assert(mid.len() > 0 && mid[0] == names[0]);
        assert(r[0] == mid[0]);
    }
}

// ───────────────────────────── per-source decisions ─────────────────────────────

/// What a cached result means for a new test.
#[derive(Debug, Clone, Copy, PartialEq, Eq, Structural)]
pub enum CacheAction {
    /// Cached as passed: count it as passed without testing.
    CountPassed,
    /// Cached as a JS-API source: leave it alone.
    Skip,
    /// Test it (untested, failed, any other status, or `--force`).
    Test,
}

pub open spec fn cache_action_spec(status: Option<Seq<char>>, force: bool) -> CacheAction {
    if force {
        CacheAction::Test
    } else {
        match status {
            Some(s) => if s == "passed"@ {
                CacheAction::CountPassed
            } else if s == "js_api"@ {
                CacheAction::Skip
            } else {
                CacheAction::Test
            },
            None => CacheAction::Test,
        }
    }
}

/// What to do with a source given its cached status; `force` (`--force`)
/// ignores the cache and tests every source afresh.
pub fn cache_action(status: Option<&str>, force: bool) -> (a: CacheAction)
    ensures
        a == cache_action_spec(status.deep_view(), force),
{
    if force {
        return CacheAction::Test;
    }
    match status {
        Some(s) => {
            let c = chars_of(s);
            if eq_exec(&c, &chars_of("passed")) {
                CacheAction::CountPassed
            } else if eq_exec(&c, &chars_of("js_api")) {
                CacheAction::Skip
            } else {
                CacheAction::Test
            }
        },
        None => CacheAction::Test,
    }
}

/// Law: with `--force` the cache is ignored: every source is tested afresh,
/// whatever its cached status.
pub proof fn lemma_force_tests_every_source(status: Option<Seq<char>>)
    ensures
        cache_action_spec(status, true) == CacheAction::Test,
{
}

/// What to do with a source before any request, given its `searchUrl`.
#[derive(Debug, Clone, Copy, PartialEq, Eq, Structural)]
pub enum PreTestAction {
    /// Needs `java.startBrowserAwait`: record as a JS-API source.
    JsApi,
    /// Needs JavaScript but Node is disabled: record as skipped (`no_node`), failed.
    SkipNoNode,
    /// Test it; `needs_js` says whether JavaScript may build the URL.
    Test { needs_js: bool },
}

pub open spec fn needs_js_spec(su: Seq<char>) -> bool {
    (starts_with(su, "@js:"@) || contains(su, "<js>"@)) && !contains(su, "java.startBrowserAwait"@)
}

pub open spec fn pre_test_action_spec(search_url: Option<Seq<char>>, no_node: bool) -> PreTestAction {
    let su = match search_url {
        Some(u) => u,
        None => seq![],
    };
    if contains(su, "java.startBrowserAwait"@) {
        PreTestAction::JsApi
    } else if needs_js_spec(su) && no_node {
        PreTestAction::SkipNoNode
    } else {
        PreTestAction::Test { needs_js: needs_js_spec(su) }
    }
}

pub fn pre_test_action(search_url: Option<&str>, no_node: bool) -> (a: PreTestAction)
    ensures
        a == pre_test_action_spec(search_url.deep_view(), no_node),
{
    let su = match search_url {
        Some(u) => chars_of(u),
        None => Vec::new(),
    };
    let is_startbrowser = contains_exec(&su, &chars_of("java.startBrowserAwait"));
    let needs_js = (starts_with_exec(&su, &chars_of("@js:")) || contains_exec(&su, &chars_of("<js>")))
        && !is_startbrowser;
    if is_startbrowser {
        PreTestAction::JsApi
    } else if needs_js && no_node {
        PreTestAction::SkipNoNode
    } else {
        PreTestAction::Test { needs_js }
    }
}

// ───────────────────────────── per-keyword decisions ─────────────────────────────

/// Where a keyword's request comes from.
pub enum RequestPlan {
    /// The request the source's `searchUrl` describes.
    Built(RequestSpec),
    /// No request could be built, but JavaScript (Node) may produce the URL.
    RunJs,
    /// Nothing to send for this keyword: go on to the next.
    Skip,
}

/// The request for one keyword: the built one when there is one, else Node
/// when the search URL needs JavaScript, else none.
pub fn plan_request(source: &BookSource, keyword: &str, needs_js: bool) -> (p: RequestPlan)
    ensures
        match build_request_spec(source.searchUrl.deep_view(), source.bookSourceUrl@, keyword@) {
            Some(r) => p matches RequestPlan::Built(spec) && spec@ == r,
            None => if needs_js {
                p is RunJs
            } else {
                p is Skip
            },
        },
{
    match build_request(source, keyword) {
        Some(spec) => RequestPlan::Built(spec),
        None => if needs_js {
            RequestPlan::RunJs
        } else {
            RequestPlan::Skip
        },
    }
}

/// The request for the URL Node printed: a `GET` of it, none when Node gave
/// no URL or an empty one.
pub open spec fn js_request_spec(url: Option<Seq<char>>) -> Option<RequestView> {
    match url {
        Some(u) => if u.len() > 0 {
            Some(get_request(u))
        } else {
            None
        },
        None => None,
    }
}

pub fn js_request(url: Option<String>) -> (r: Option<RequestSpec>)
    ensures
        r.deep_view() == js_request_spec(url.deep_view()),
{
    match url {
        Some(u) => if u.as_str().is_empty() {
            None
        } else {
            let headers: Vec<(String, String)> = Vec::new();
            let r = RequestSpec {
                url: u,
                method: string_of(&chars_of("GET")),
                body: None,
                headers,
                charset: None,
            };
            assert(r@.headers =~= Seq::<(Seq<char>, Seq<char>)>::empty());
            Some(r)
        },
        None => None,
    }
}

/// What follows a failed request.
#[derive(Debug, Clone, Copy, PartialEq, Eq, Structural)]
pub enum FetchFailure {
    /// Wait this many seconds and send it again.
    RetryAfterSecs(u64),
    /// Give up this keyword and go on to the next.
    GiveUp,
}

/// After the `attempt`-th request for a keyword failed: the first failure is
/// retried once after two seconds; a second failure gives the keyword up.
pub fn after_fetch_failure(attempt: u32) -> (a: FetchFailure)
    ensures
        a == (if attempt < 2 {
            FetchFailure::RetryAfterSecs(2)
        } else {
            FetchFailure::GiveUp
        }),
{
    if attempt < 2 {
        FetchFailure::RetryAfterSecs(2)
    } else {
        FetchFailure::GiveUp
    }
}

/// The reason recorded for a source that did not pass: `network_error` when
/// requests were sent and none was answered (a later round retries it),
/// `no_results` otherwise.
pub open spec fn failure_reason_spec(requests_sent: bool, any_response: bool) -> Seq<char> {
    if requests_sent && !any_response {
        "network_error"@
    } else {
        "no_results"@
    }
}

pub fn failure_reason(requests_sent: bool, any_response: bool) -> (r: String)
    ensures
        r@ == failure_reason_spec(requests_sent, any_response),
{
    if requests_sent && !any_response {
        string_of(&chars_of("network_error"))
    } else {
        string_of(&chars_of("no_results"))
    }
}

/// Law: before any request, a search URL that calls
/// `java.startBrowserAwait` is a JS-API source whatever `--no-node` says; a
/// JavaScript one is skipped under `--no-node`; a plain URL is tested
/// without JavaScript.
pub proof fn lemma_pre_test_decisions(su: Seq<char>, no_node: bool)
    ensures
        contains(su, "java.startBrowserAwait"@) ==> pre_test_action_spec(Some(su), no_node)
            == PreTestAction::JsApi,
        !contains(su, "java.startBrowserAwait"@) && (starts_with(su, "@js:"@) || contains(
            su,
            "<js>"@,
        )) && no_node ==> pre_test_action_spec(Some(su), no_node) == PreTestAction::SkipNoNode,
        !starts_with(su, "@js:"@) && !contains(su, "<js>"@) && !contains(
            su,
            "java.startBrowserAwait"@,
        ) ==> pre_test_action_spec(Some(su), no_node) == (PreTestAction::Test { needs_js: false }),
        pre_test_action_spec(None, no_node) == (PreTestAction::Test { needs_js: false }),
{
    reveal_strlit("java.startBrowserAwait");
    reveal_strlit("@js:");
    reveal_strlit("<js>");
    let e = Seq::<char>::empty();
    assert(!contains(e, "java.startBrowserAwait"@));
    assert(!contains(e, "<js>"@));
    assert(!starts_with(e, "@js:"@));
}

/// `json` when the response's content type or the request URL mentions
/// JSON, else `html`.
pub open spec fn response_kind_spec(content_type: Seq<char>, url: Seq<char>) -> Seq<char> {
    if contains(content_type, "json"@) || contains(url, "json"@) {
        "json"@
    } else {
        "html"@
    }
}

pub fn response_kind(content_type: &str, url: &str) -> (r: String)
    ensures
        r@ == response_kind_spec(content_type@, url@),
{
    let json = chars_of("json");
    if contains_exec(&chars_of(content_type), &json) || contains_exec(&chars_of(url), &json) {
        string_of(&json)
    } else {
        string_of(&chars_of("html"))
    }
}

/// A response passes when its body is not blank and the search rule
/// extracts a result with a name or an author from it.
pub open spec fn response_passes_spec(body: Seq<char>, kind: Seq<char>, rule: Option<SearchRule>) -> bool {
    trim(body).len() > 0 && match rule {
        Some(r) => has_valid_results_spec(extract_results_spec(body, kind, r)),
        None => false,
    }
}

pub fn response_passes(body: &str, kind: &str, rule: &Option<SearchRule>) -> (b: bool)
    requires
        *rule matches Some(r) ==> (!is_blank(body@) ==> extract_results_accepts(body@, kind@, r)),
    ensures
        b == response_passes_spec(body@, kind@, *rule),
{
    if is_blank_exec(body) {
        return false;
    }
    match rule {
        Some(r) => {
            let results = extract_results(body, kind, r);
            proof {
                assert(results@.map_values(|v: Vec<String>| v.deep_view()) =~= results.deep_view());
            }
            has_valid_results(results.as_slice())
        },
        None => false,
    }
}

} // verus!
