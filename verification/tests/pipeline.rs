use legado_source_filter::campaign::{
    build_test_config, dead_domain_marks, discover_source_url, domain_of, final_tally,
    is_retryable, needs_download, positions_with_status, retryable_positions,
    source_url_from_items, test_books_from_entries, test_config_with_books, FinalTally,
    concurrency_accepted, retry_positions,
};
use legado_source_filter::http_client::is_transient_status;
use legado_source_filter::preflight;
use legado_source_filter::reporter::skip_counts;
use legado_source_filter::tester::{
    after_fetch_failure, cache_action, failure_reason, js_request, plan_request, FetchFailure, RequestPlan, pre_test_action, response_kind, response_passes, select_keywords, CacheAction,
    PreTestAction, TestBook, TestConfig,
};
use legado_source_filter::types::{
    default_true, BookSource, ContentRule, SearchRule, SkipReason,
};

fn src(url: &str, search: Option<&str>) -> BookSource {
    BookSource {
        bookSourceName: url.into(),
        bookSourceUrl: url.into(),
        bookSourceType: 0,
        enabled: true,
        searchUrl: search.map(|s| s.into()),
        ruleSearch: Some(SearchRule::default()),
        ruleContent: Some(ContentRule::default()),
        ..Default::default()
    }
}

#[test]
fn preflight_sorts_sources() {
    let mut audio = src("https://a.com", Some("/s?k={{key}}"));
    audio.bookSourceType = 1;
    let mut disabled = src("https://b.com", Some("/s"));
    disabled.enabled = false;
    let bad = src("小说合集", Some("/s"));
    let fixable = src("www.c.com", Some("@js:url=baseUrl+\"/s\"+key"));
    let mut explore = src("https://d.com", None);
    explore.exploreUrl = Some("\"x::/e\"".into());
    let nothing = src("https://e.com", Some(" - "));
    let mut no_rule = src("https://f.com", Some("<js>x</js>"));
    no_rule.ruleSearch = None;
    let mut no_content = src("https://g.com", Some("/s"));
    no_content.ruleContent = None;
    let plain = src("https://h.com", Some("/search"));
    let out = preflight::run(vec![
        audio, disabled, bad, fixable, explore, nothing, no_rule, no_content, plain,
    ]);
    assert_eq!(out.total_input, 9);
    assert_eq!(out.excluded, 2);
    assert_eq!(out.text_enabled, 7);
    assert_eq!(out.eligible.len(), 2);
    assert_eq!(out.eligible[0].bookSourceUrl, "https://www.c.com");
    assert_eq!(out.eligible[1].bookSourceUrl, "https://h.com");
    assert_eq!(out.explore_only.len(), 1);
    let reasons: Vec<SkipReason> = out.skipped.iter().map(|(_, r)| *r).collect();
    assert_eq!(
        reasons,
        vec![
            SkipReason::BadUrl,
            SkipReason::NoCapability,
            SkipReason::NoSearchRule,
            SkipReason::NoContentRule
        ]
    );
    assert_eq!(out.skipped[0].0.bookSourceUrl, "");
    assert_eq!(out.breakdown.js_prefix, 1);
    assert_eq!(out.breakdown.pure_url, 1);
    assert_eq!(
        out.breakdown.template + out.breakdown.js_prefix + out.breakdown.js_block
            + out.breakdown.pure_url + out.breakdown.placeholder,
        out.eligible.len()
    );
    assert_eq!(
        out.skipped.len() + out.explore_only.len() + out.eligible.len(),
        out.text_enabled
    );
    assert_eq!(out.total_input, out.excluded + out.text_enabled);
    let counts = skip_counts(&out.skipped);
    assert_eq!(
        counts,
        vec![
            (SkipReason::BadUrl, 1),
            (SkipReason::NoCapability, 1),
            (SkipReason::NoSearchRule, 1),
            (SkipReason::NoContentRule, 1)
        ]
    );
    assert!(default_true());
}

fn config(books: Vec<TestBook>) -> TestConfig {
    test_config_with_books(5, 10, false, books)
}

#[test]
fn keywords_prefer_check_keyword_then_hints() {
    let mut s = src("https://Www.Qidian.com/", Some("/s"));
    s.ruleSearch = Some(SearchRule { checkKeyWord: Some("  斗破苍穹 ".into()), ..Default::default() });
    let books = vec![
        TestBook { name: "甲".into(), author: "".into(), domain_hint: Some("QIDIAN".into()) },
        TestBook { name: "乙".into(), author: "".into(), domain_hint: None },
    ];
    let cfg = config(books);
    assert_eq!(select_keywords(&s, &cfg), vec!["斗破苍穹", "甲", "乙"]);
    let books_first = config(vec![TestBook { name: "玄鉴仙族".into(), author: "季越人".into(), domain_hint: None }]);
    assert_eq!(select_keywords(&src("https://a.com", Some("/s")), &books_first), vec!["玄鉴仙族", "重生", "系统"]);
    let plain = src("https://x.com", Some("/s"));
    assert_eq!(select_keywords(&plain, &config(vec![])), vec!["重生", "系统", "穿越"]);
    let mut dup = src("https://x.com", Some("/s"));
    dup.ruleSearch = Some(SearchRule { checkKeyWord: Some("系统".into()), ..Default::default() });
    assert_eq!(select_keywords(&dup, &config(vec![])), vec!["系统", "重生", "穿越"]);
}

#[test]
fn per_source_decisions() {
    assert_eq!(cache_action(Some("passed"), false), CacheAction::CountPassed);
    assert_eq!(cache_action(Some("js_api"), false), CacheAction::Skip);
    assert_eq!(cache_action(Some("failed"), false), CacheAction::Test);
    assert_eq!(cache_action(None, false), CacheAction::Test);
    assert_eq!(cache_action(Some("passed"), true), CacheAction::Test);
    assert_eq!(cache_action(Some("js_api"), true), CacheAction::Test);
    assert_eq!(pre_test_action(Some("@js:java.startBrowserAwait(x)"), false), PreTestAction::JsApi);
    assert_eq!(pre_test_action(Some("@js:url=1"), true), PreTestAction::SkipNoNode);
    assert_eq!(pre_test_action(Some("<js>1</js>"), false), PreTestAction::Test { needs_js: true });
    assert_eq!(pre_test_action(None, true), PreTestAction::Test { needs_js: false });
    assert_eq!(response_kind("application/json", "https://a"), "json");
    assert_eq!(response_kind("text/html", "https://a/api.json"), "json");
    assert_eq!(response_kind("text/html", "https://a"), "html");
    let rule = Some(SearchRule {
        bookList: Some("class.b".into()),
        name: Some("tag.a@text".into()),
        ..Default::default()
    });
    assert!(response_passes("<div class=\"b\"><a>书</a></div>", "html", &rule));
    assert!(!response_passes("  ", "html", &rule));
    assert!(!response_passes("<div class=\"c\"></div>", "html", &rule));
    assert!(!response_passes("<div class=\"b\"><a>书</a></div>", "html", &None));
}

fn cached(s: &str, r: Option<&str>) -> Option<(String, Option<String>)> {
    Some((s.to_string(), r.map(|x| x.to_string())))
}

#[test]
fn campaign_decisions() {
    assert!(is_retryable(&None));
    assert!(is_retryable(&cached("failed", Some("network_error"))));
    assert!(!is_retryable(&cached("failed", Some("no_results"))));
    assert!(!is_retryable(&cached("passed", None)));
    let c = vec![None, cached("failed", Some("network_error")), cached("passed", None)];
    assert_eq!(retryable_positions(&c), vec![0, 1]);
    assert_eq!(positions_with_status(&c, "passed"), vec![2]);

    assert_eq!(domain_of("https://WWW.A.com/x"), "www.a.com");
    assert_eq!(domain_of("nope"), "");
    let urls: Vec<String> = vec!["https://a.com/1", "https://a.com/2", "https://b.com", "x"]
        .into_iter().map(String::from).collect();
    let c = vec![
        cached("failed", None),
        cached("passed", None),
        cached("failed", Some("no_results")),
        cached("failed", None),
    ];
    assert_eq!(dead_domain_marks(&urls, &c), vec![false, false, true, false]);

    let t = final_tally(&vec![
        cached("passed", None),
        cached("failed", None),
        cached("dead_domain", None),
        cached("js_api", None),
        cached("skipped", Some("no_node")),
        None,
        cached("other", None),
    ]);
    assert_eq!(t, FinalTally { passed: 1, dead_domain: 1, failed: 1, js_api: 1, skipped: 1, untested: 2 });

    assert!(needs_download(&None, "u", true));
    assert!(!needs_download(&Some(" u\n".into()), "u", true));
    assert!(needs_download(&Some("u".into()), "u", false));
    assert!(needs_download(&Some("v".into()), "u", true));

    let books = test_books_from_entries(&vec![
        (Some("书".into()), Some("作者".into())),
        (Some("".into()), Some("x".into())),
        (None, None),
        (Some("无名".into()), None),
    ]);
    assert_eq!(books.len(), 2);
    assert_eq!(books[1].name, "无名");
    assert_eq!(books[1].author, "");
}

#[test]
fn source_list_discovery() {
    let html = r#"<ul><li><p>精选书源</p><a href="/a.json">a</a></li>
        <li><p>全量书源 2026</p><a href="/b.txt">b</a><a href="https://x/c.json">c</a></li></ul>"#;
    assert_eq!(discover_source_url(html), Some("https://x/c.json".into()));
    assert_eq!(discover_source_url("<p>全量书源</p>"), None);
    let items = vec![
        (vec!["全量书源".to_string()], vec![None, Some("/z.json".to_string())]),
    ];
    assert_eq!(source_url_from_items(&items), Some("/z.json".into()));
}

#[test]
fn test_config_from_toml_text() {
    let text = "[[search]]\nname = \"玄鉴仙族\"\nauthor = \"季越人\"\n\n[[search]]\nname = \"\"\n\n[[search]]\nname = \"无敌天命\"\n";
    let c = build_test_config(7, 20, true, text).unwrap();
    assert_eq!(c.concurrency, 7);
    assert_eq!(c.timeout_secs, 20);
    assert!(c.force);
    assert!(!c.no_node);
    assert!(!c.retry_missed);
    assert_eq!(c.test_books.len(), 2);
    assert_eq!(c.test_books[0].name, "玄鉴仙族");
    assert_eq!(c.test_books[0].author, "季越人");
    assert_eq!(c.test_books[1].name, "无敌天命");
    assert_eq!(c.test_books[1].author, "");
    assert_eq!(c.generic_keywords, vec!["重生", "系统", "穿越"]);

    let empty = build_test_config(1, 1, false, "title = \"x\"\n").unwrap();
    assert!(empty.test_books.is_empty());
    assert!(build_test_config(1, 1, false, "[[search]\nname = ").is_none());
}

#[test]
fn campaign_guards_and_failure_reasons() {
    assert!(!concurrency_accepted(0));
    assert!(concurrency_accepted(1));
    assert!(is_transient_status(500));
    assert!(is_transient_status(503));
    assert!(!is_transient_status(499));
    assert_eq!(failure_reason(true, false), "network_error");
    assert_eq!(failure_reason(true, true), "no_results");
    assert_eq!(failure_reason(false, false), "no_results");
    let cached = vec![cached("passed", None), None, cached("failed", Some("network_error"))];
    assert_eq!(retry_positions(Some(&cached), 3), vec![1, 2]);
    assert_eq!(retry_positions(None, 3), vec![0, 1, 2]);
}

#[test]
fn test_config_reads_any_toml_values() {
    let text = "rate = 1.5\nwhen = 1979-05-27\n[[search]]\nname = \"书\"\nauthor = 7\n[[search]]\nauthor = \"x\"\n";
    let c = build_test_config(1, 1, false, text).unwrap();
    assert_eq!(c.test_books.len(), 1);
    assert_eq!(c.test_books[0].name, "书");
    assert_eq!(c.test_books[0].author, "");
    let c = build_test_config(1, 1, false, "search = \"not an array\"\n").unwrap();
    assert!(c.test_books.is_empty());
}

#[test]
fn keywords_never_exceed_three() {
    let mut s = src("https://abc.com", Some("/s"));
    s.ruleSearch = Some(SearchRule { checkKeyWord: Some("k".into()), ..Default::default() });
    let hinted = |n: &str| TestBook { name: n.into(), author: "".into(), domain_hint: Some("abc.com".into()) };
    let mut cfg = config(vec![hinted("b1"), hinted("b2"), hinted("b3")]);
    cfg.generic_keywords = vec![];
    assert_eq!(select_keywords(&s, &cfg), vec!["k", "b1", "b2"]);
}

#[test]
fn per_keyword_decisions() {
    let built = src("https://a.com", Some("/s?q={{key}}"));
    match plan_request(&built, "x", false) {
        RequestPlan::Built(spec) => assert_eq!(spec.url, "https://a.com/s?q=x"),
        _ => panic!("expected a built request"),
    }
    let js = src("https://a.com", Some("@js:java.ajax(baseUrl)"));
    assert!(matches!(plan_request(&js, "x", true), RequestPlan::RunJs));
    assert!(matches!(plan_request(&js, "x", false), RequestPlan::Skip));
    let r = js_request(Some("https://n.com/q".into())).unwrap();
    assert_eq!(r.url, "https://n.com/q");
    assert_eq!(r.method, "GET");
    assert!(js_request(Some("".into())).is_none());
    assert!(js_request(None).is_none());
    assert_eq!(after_fetch_failure(1), FetchFailure::RetryAfterSecs(2));
    assert_eq!(after_fetch_failure(2), FetchFailure::GiveUp);
}
