use legado_source_filter::json::JsonValue;
use legado_source_filter::rule_dsl::combinator::{apply_combinators, merge_fallback};
use legado_source_filter::rule_dsl::parser::{tokenize, RuleToken};
use legado_source_filter::rule_dsl::{extract_results, extract_results_accepted, has_valid_results};
use legado_source_filter::rule_dsl::{html_extractor, json_extractor};
use legado_source_filter::types::SearchRule;

fn js(s: &str) -> JsonValue {
    JsonValue::Str(s.to_string())
}

fn jn(s: &str) -> JsonValue {
    JsonValue::Number(s.to_string())
}

fn jarr(v: Vec<JsonValue>) -> JsonValue {
    JsonValue::Array(v)
}

fn jobj(m: Vec<(&str, JsonValue)>) -> JsonValue {
    JsonValue::Object(m.into_iter().map(|(k, v)| (k.to_string(), v)).collect())
}

#[test]
fn combinator_test_regex_replace() {
    let tokens = tokenize("$.name##(\\d+)##NUM:$1");
    // tokens: [JsonPath, RegexReplace]
    assert_eq!(tokens.len(), 2);
}

#[test]
fn test_fallback_semantics() {
    let first = vec!["".to_string()];
    let second = vec!["result".to_string()];
    let merged = merge_fallback(&[first, second]);
    assert_eq!(merged, vec!["result"]);
}

#[test]
fn test_simple_text() {
    let html = r#"<div class="item"><a href="/book/1">Book 1</a></div>"#;
    let tokens = tokenize("class.item@tag.a@text");
    let results = html_extractor::extract(html, &tokens);
    assert_eq!(results, vec!["Book 1"]);
}

#[test]
fn test_href() {
    let html = r#"<div class="item"><a href="/book/1">Title</a></div>"#;
    let tokens = tokenize("class.item@tag.a@href");
    let results = html_extractor::extract(html, &tokens);
    assert_eq!(results, vec!["/book/1"]);
}

#[test]
fn html_extractor_test_index_modifier() {
    let html = r#"<ul><li>First</li><li>Second</li></ul>"#;
    let tokens = tokenize("tag.li.0@text");
    let results = html_extractor::extract(html, &tokens);
    assert_eq!(results, vec!["First"]);
}

#[test]
fn test_preserves_custom_attributes() {
    let html = r#"<div class="item" data-id="42" style="color:red" title="tip" rel="nofollow">
            <a href="/book/1">Book 1</a>
        </div>"#;
    let tokens = tokenize("class.item@tag.a@href");
    let results = html_extractor::extract(html, &tokens);
    assert_eq!(results, vec!["/book/1"], "href from child link");

    let with_html = tokenize("class.item@html");
    let results = html_extractor::extract(html, &with_html);
    assert_eq!(results.len(), 1, "should match one .item element");
    assert!(
        results[0].contains("href=\"/book/1\""),
        "href attribute should be preserved in inner HTML"
    );
}

#[test]
fn test_simple_jsonpath() {
    let json = jobj(vec![("data", jarr(vec![jobj(vec![("name", js("Book1"))]), jobj(vec![("name", js("Book2"))])]))]);
    let tokens = tokenize("$.data[*].name");
    let results = json_extractor::extract(&json, &tokens);
    assert_eq!(results, vec!["Book1", "Book2"]);
}

#[test]
fn test_data_path() {
    let json = jobj(vec![("books", jarr(vec![jobj(vec![("title", js("Test"))])]))]);
    let tokens = tokenize("data.books");
    let results = json_extractor::extract(&json, &tokens);
    assert!(!results.is_empty());
}

#[test]
fn test_extract_results_html_multi_item() {
    let html = r#"<ul>
            <li class="book"><span class="title">Book1</span><span class="author">Author1</span></li>
            <li class="book"><span class="title">Book2</span><span class="author">Author2</span></li>
        </ul>"#;
    let rule = SearchRule {
        bookList: Some("class.book".into()),
        name: Some("class.title@text".into()),
        author: Some("class.author@text".into()),
        ..Default::default()
    };
    let results = extract_results(html, "html", &rule);
    assert_eq!(results.len(), 2, "should extract 2 items");
    assert_eq!(results[0][0], "Book1", "first item name");
    assert_eq!(results[0][1], "Author1", "first item author");
    assert_eq!(results[1][0], "Book2", "second item name");
    assert_eq!(results[1][1], "Author2", "second item author");
}

#[test]
fn test_extract_results_json_multi_item() {
    let json = r#"{"books": [
            {"title": "Book1", "author": "Author1"},
            {"title": "Book2", "author": "Author2"}
        ]}"#;
    let rule = SearchRule {
        bookList: Some("$.books[*]".into()),
        name: Some("$.title".into()),
        author: Some("$.author".into()),
        ..Default::default()
    };
    let results = extract_results(json, "json", &rule);
    assert_eq!(results.len(), 2, "should extract 2 items");
    assert_eq!(results[0][0], "Book1", "first item name");
    assert_eq!(results[1][0], "Book2", "second item name");
    assert_eq!(results[0][1], "Author1", "first item author");
}

#[test]
fn test_has_valid_results() {
    assert!(!has_valid_results(&[]), "empty list should be invalid");
    assert!(!has_valid_results(&[vec!["".into(), "".into()]]), "empty fields should be invalid");
    assert!(has_valid_results(&[vec!["Book".into(), "".into()]]), "name only should be valid");
    assert!(has_valid_results(&[vec!["".into(), "Author".into()]]), "author only should be valid");
}

#[test]
fn test_rule_dsl_parser() {
    let t = tokenize("class.item@tag.li@text");
    assert_eq!(t.len(), 3);

    let t = tokenize("class.item.0@tag.a@href");
    assert!(t.len() >= 4);

    let t = tokenize("$.data[*].name");
    assert_eq!(t.len(), 1);

    let t = tokenize("class.a@text||class.b@text");
    assert!(t.iter().any(|tok| matches!(tok, RuleToken::Fallback)));
}

#[test]
fn test_html_extractor() {
    let html = r#"<div class="item"><a href="/book/1">Book 1</a></div>"#;
    let tokens = tokenize("class.item@tag.a@text");
    let results = html_extractor::extract(html, &tokens);
    assert_eq!(results, vec!["Book 1"]);
}

#[test]
fn test_json_extractor() {
    let json = JsonValue::Object(vec![(
        "data".to_string(),
        JsonValue::Array(vec![
            JsonValue::Object(vec![("name".to_string(), JsonValue::Str("Book1".into()))]),
            JsonValue::Object(vec![("name".to_string(), JsonValue::Str("Book2".into()))]),
        ]),
    )]);
    let tokens = tokenize("$.data[*].name");
    let results = json_extractor::extract(&json, &tokens);
    assert_eq!(results, vec!["Book1", "Book2"]);
}

#[test]
fn combinators_fallback_replace_and_exclusion() {
    let v = |xs: &[&str]| xs.iter().map(|s| s.to_string()).collect::<Vec<String>>();
    let t = vec![RuleToken::Fallback];
    assert_eq!(apply_combinators(v(&["a"]), &t), v(&["a"]));
    assert_eq!(apply_combinators(v(&[" "]), &t), Vec::<String>::new());
    let t = vec![RuleToken::RegexReplace { pattern: "(\\d+)".into(), replacement: "N$1".into() }];
    assert_eq!(apply_combinators(v(&["a12", "b"]), &t), v(&["aN12", "b"]));
    let t = vec![RuleToken::RegexReplace { pattern: "(".into(), replacement: "x".into() }];
    assert_eq!(apply_combinators(v(&["a("]), &t), v(&["a("]));
    let t = vec![RuleToken::ExcludeIndex(0)];
    assert_eq!(apply_combinators(v(&["a", "b"]), &t), v(&["b"]));
    assert_eq!(apply_combinators(v(&["a"]), &[RuleToken::ExcludeIndex(3)]), v(&["a"]));
    assert_eq!(apply_combinators(v(&["a", "b", "c"]), &[RuleToken::Index(0)]), v(&["b", "c"]));
    let t = tokenize(r"$.name##(\d+)##NUM:$1");
    assert_eq!(apply_combinators(v(&["Vol 12"]), &t), v(&["Vol NUM:12"]));
    let t = vec![RuleToken::Fallback, RuleToken::RegexReplace { pattern: "x".into(), replacement: "y".into() }];
    assert_eq!(apply_combinators(v(&["x"]), &t), v(&["x"]));
    assert_eq!(merge_fallback(&[v(&[" ", ""]), v(&[])]), Vec::<String>::new());
}

#[test]
fn json_paths_numbers_and_nesting() {
    let json = jarr(vec![
        jobj(vec![("a", jobj(vec![("b", jarr(vec![jn("1"), jn("2.5"), JsonValue::Bool(true), JsonValue::Null, js("s")]))]))]),
        jobj(vec![("a", jobj(vec![("b", jarr(vec![]))]))]),
    ]);
    assert_eq!(
        json_extractor::extract(&json, &tokenize("$[*].a.b")),
        vec!["[1,2.5,true,null,\"s\"]", "[]"]
    );
    assert_eq!(
        json_extractor::extract(&json, &tokenize("$[*].a.b[1]")),
        Vec::<String>::new()
    );
    let list = jobj(vec![("list", jarr(vec![js("p"), js("q")]))]);
    assert_eq!(json_extractor::extract(&list, &tokenize("$.list[1]")), vec!["q"]);
    assert_eq!(json_extractor::extract(&list, &tokenize("$.list[+0]")), vec!["p"]);
    assert_eq!(
        json_extractor::extract(&json, &tokenize("$[*].a.b[*]")),
        Vec::<String>::new()
    );
    let one = jobj(vec![("a", jobj(vec![("b", jarr(vec![jn("1"), jn("2.5"), JsonValue::Bool(true), JsonValue::Null, js("s")]))]))]);
    assert_eq!(
        json_extractor::extract(&one, &tokenize("$.a.b[*]")),
        vec!["1", "2.5", "true", "", "s"]
    );
    let obj = jobj(vec![("x", jobj(vec![("y", jarr(vec![jobj(vec![("z", jn("7"))])]))]))]);
    assert_eq!(json_extractor::extract(&obj, &tokenize("data.x.y")), vec!["{\"z\":7}"]);
    assert_eq!(json_extractor::extract(&obj, &tokenize("data.x.q")), Vec::<String>::new());
    assert_eq!(json_extractor::extract(&obj, &tokenize("$.x.y.z")), vec!["7"]);
    assert_eq!(json_extractor::extract(&obj, &tokenize("class.a")), Vec::<String>::new());
}

#[test]
fn html_text_nodes_src_and_ids() {
    let html = r#"<div id="m"><p>one <b>two</b> three</p><img src="/c.png"></div>"#;
    assert_eq!(html_extractor::extract(html, &tokenize("id.m@tag.p@textNodes")), vec![""]);
    assert_eq!(html_extractor::extract(html, &tokenize("id.m@tag.img@src")), vec!["/c.png"]);
    assert_eq!(html_extractor::extract(html, &tokenize("tag.p.5@text")), Vec::<String>::new());
    assert_eq!(html_extractor::extract(html, &tokenize("tag.b")), vec!["<b>two</b>"]);
}

#[test]
fn selected_elements_keep_their_outer_html_once() {
    let html = r#"<div class="item"><a href="/b">B</a></div>"#;
    assert_eq!(
        html_extractor::extract(html, &tokenize("class.item")),
        vec![r#"<div class="item"><a href="/b">B</a></div>"#]
    );
}

#[test]
fn index_takes_and_exclusion_removes() {
    let html = r#"<div class="item"><ul><li>First</li><li>Second</li><li>Third</li></ul></div>"#;
    let take = tokenize("class.item@tag.li.0@text");
    assert_eq!(take[2], RuleToken::Index(0));
    assert_eq!(html_extractor::extract(html, &take), vec!["First"]);
    let rule = SearchRule {
        bookList: Some("class.item".into()),
        name: Some("tag.li.0@text".into()),
        author: Some("tag.li!0@text".into()),
        ..Default::default()
    };
    let rows = extract_results(html, "html", &rule);
    assert_eq!(rows[0][0], "First");
    assert_eq!(rows[0][1], "Second");
    let drop = tokenize("class.item@tag.li!0@text");
    assert_eq!(drop[2], RuleToken::ExcludeIndex(0));
    let all = html_extractor::extract(html, &drop);
    assert_eq!(all, vec!["First", "Second", "Third"]);
    assert_eq!(apply_combinators(all, &drop), vec!["Second", "Third"]);
}

#[test]
fn fallback_tries_the_next_alternative() {
    let html = r#"<div class="row"><p class="b">B</p></div>"#;
    let rule = SearchRule {
        bookList: Some("class.none||class.row".into()),
        name: Some("class.a@text||class.b@text".into()),
        ..Default::default()
    };
    let results = extract_results(html, "html", &rule);
    assert_eq!(results.len(), 1);
    assert_eq!(results[0][0], "B");
    let json = r#"{"list":[{"t":"x"}]}"#;
    let rule = SearchRule {
        bookList: Some("$.missing[*]||$.list[*]".into()),
        name: Some("$.none||$.t".into()),
        ..Default::default()
    };
    let results = extract_results(json, "json", &rule);
    assert_eq!(results.len(), 1);
    assert_eq!(results[0][0], "x");
}

#[test]
fn rules_are_only_tokenized_where_used() {
    let rule = SearchRule {
        bookList: Some("class.none".into()),
        name: Some("a|||b".into()),
        ..Default::default()
    };
    assert!(extract_results_accepted("<p>x</p>", "html", &rule));
    assert!(extract_results("<p>x</p>", "html", &rule).is_empty());
    let rule = SearchRule {
        bookList: Some("tag.p".into()),
        name: Some("a|||b".into()),
        ..Default::default()
    };
    assert!(!extract_results_accepted("<p>x</p>", "html", &rule));
    let rule = SearchRule { bookList: Some("x|||y".into()), ..Default::default() };
    assert!(!extract_results_accepted("", "html", &rule));
    let rule = SearchRule { bookList: None, name: Some("a|||b".into()), ..Default::default() };
    assert!(extract_results_accepted("", "html", &rule));
}
