use legado_source_filter::rule_dsl::parser::{
    extract_index, parse_annotation, parse_rule, split_index, tokenize, RuleToken,
};

#[test]
fn test_simple_css() {
    let t = tokenize("class.item@tag.li@text");
    assert_eq!(t, vec![
        RuleToken::CssClass("item".into()),
        RuleToken::TagName("li".into()),
        RuleToken::Text,
    ]);
}

#[test]
fn parser_test_index_modifier() {
    let t = tokenize("class.item.0@tag.a@href");
    assert_eq!(t[0], RuleToken::CssClass("item".into()));
    assert_eq!(t[1], RuleToken::Index(0));
    assert_eq!(t[2], RuleToken::TagName("a".into()));
    assert_eq!(t[3], RuleToken::Href);
}

#[test]
fn test_jsonpath() {
    let t = tokenize("$.data[*].name");
    assert_eq!(t, vec![RuleToken::JsonPath("$.data[*].name".into())]);
}

#[test]
fn test_fallback() {
    let t = tokenize("class.a@li@text||class.b@li@text");
    assert_eq!(t.len(), 7, "3 tokens per segment + 1 Fallback = 7");
    assert!(t.contains(&RuleToken::Fallback));
}

#[test]
fn parser_test_regex_replace() {
    let t = tokenize("$.name##foo##bar");
    assert_eq!(t.len(), 2);
    assert_eq!(t[0], RuleToken::JsonPath("$.name".into()));
    assert!(matches!(t[1], RuleToken::RegexReplace { .. }));
}

#[test]
fn test_split_index() {
    assert_eq!(split_index("item.0"), ("item", Some(0)));
    assert_eq!(split_index("item!0"), ("item", Some(0)));
    assert_eq!(split_index("item.12"), ("item", Some(12)));
    assert_eq!(split_index("item"), ("item", None));
}

#[test]
fn test_annotation() {
    assert_eq!(parse_annotation("text"), RuleToken::Text);
    assert_eq!(parse_annotation("textNodes"), RuleToken::TextNodes);
    assert_eq!(parse_annotation("href"), RuleToken::Href);
    assert_eq!(parse_annotation("a"), RuleToken::TagShort("a".into()));
}

#[test]
fn tokenize_js_block_and_data_path() {
    assert_eq!(
        tokenize("  <js>a+b</js> data.x.y"),
        vec![
            RuleToken::JsBlock("a+b".into()),
            RuleToken::DataPath(vec!["x".into(), "y".into()]),
        ]
    );
    assert_eq!(tokenize("<js>only"), vec![RuleToken::JsBlock("only".into())]);
    assert_eq!(tokenize(""), vec![]);
}

#[test]
fn tokenize_annotations_and_regex_parts() {
    assert_eq!(
        tokenize("id.main@css:div > p@js:result.trim()"),
        vec![
            RuleToken::CssId("main".into()),
            RuleToken::CssOverride("div > p".into()),
            RuleToken::JsTransform("result.trim()".into()),
        ]
    );
    assert_eq!(
        tokenize("tag.p@text##\\s+##-"),
        vec![
            RuleToken::TagName("p".into()),
            RuleToken::Text,
            RuleToken::RegexReplace { pattern: "\\s+".into(), replacement: "-".into() },
        ]
    );
    assert_eq!(parse_rule("a || b"), vec![
        RuleToken::Unknown("a".into()),
        RuleToken::Fallback,
        RuleToken::Unknown("b".into()),
    ]);
}

#[test]
fn split_index_edge_cases() {
    assert_eq!(split_index(".12"), ("", Some(12)));
    assert_eq!(split_index("a.0x"), ("a.0x", None));
    assert_eq!(split_index("ab"), ("ab", None));
    assert_eq!(split_index("a.99999999999999999999999"), ("a.99999999999999999999999", None));
    assert_eq!(extract_index("li!3"), Some(("li".to_string(), 3)));
    assert_eq!(extract_index("li"), None);
}
