use legado_source_filter::search_url::{
    build_request, extract_charset, extract_post_body, resolve_template, resolve_url,
    try_parse_post, urlencoding,
};
use legado_source_filter::types::BookSource;

#[test]
fn test_template_replacement() {
    let result = resolve_template("/search?keyword={{key}}&page={{page}}", "测试");
    assert_eq!(result, "/search?keyword=测试&page=1");
}

#[test]
fn test_url_resolve_relative() {
    assert_eq!(
        resolve_url("/search", "https://example.com"),
        "https://example.com/search"
    );
}

#[test]
fn test_url_resolve_absolute() {
    assert_eq!(
        resolve_url("https://other.com/search", "https://example.com"),
        "https://other.com/search"
    );
}

#[test]
fn test_post_body_extraction() {
    let s = "/modules/article/search.php,{'charset':'gbk','body':'searchkey={{key}}','method':'POST'}";
    let body = extract_post_body(s);
    assert_eq!(body, Some("searchkey={{key}}".into()));

    let charset = extract_charset(s);
    assert_eq!(charset, Some("gbk".into()));
}

#[test]
fn test_search_url_templates() {
    let source = BookSource {
        bookSourceName: "test".into(),
        bookSourceUrl: "https://example.com".into(),
        bookSourceType: 0,
        enabled: true,
        searchUrl: Some("/search?keyword={{key}}&page={{page}}".into()),
        ..Default::default()
    };

    let spec = build_request(&source, "重生").unwrap();
    assert_eq!(spec.url, "https://example.com/search?keyword=重生&page=1");
    assert_eq!(spec.method, "GET");
}

#[test]
fn urlencoding_exact_values() {
    assert_eq!(urlencoding("a b-_.~Z9"), "a+b-_.~Z9");
    assert_eq!(urlencoding("重生"), "%E9%87%8D%E7%94%9F");
    assert_eq!(urlencoding("a/&"), "a%2F%26");
}

#[test]
fn post_request_is_built_from_dict() {
    let spec = try_parse_post(
        "/s.php,{'charset':'GBK','body':'k={{key}}','method':'POST'}",
        "https://a.com/",
    )
    .unwrap();
    assert_eq!(spec.url, "https://a.com/s.php");
    assert_eq!(spec.method, "POST");
    assert_eq!(spec.body, Some("k={{key}}".into()));
    assert_eq!(spec.charset, Some("gbk".into()));
    assert!(try_parse_post("/s.php?k={{key}}", "https://a.com").is_none());
    assert!(try_parse_post("/s.php,{'method':'POST'}", "https://a.com").is_none());
}

#[test]
fn js_l1_search_url_resolves_in_rust() {
    let source = BookSource {
        bookSourceUrl: "https://b.com/".into(),
        searchUrl: Some("@js:url = baseUrl + \"/so/{{page}}/\" + encodeURI(key)".into()),
        ..Default::default()
    };
    let spec = build_request(&source, "三 国").unwrap();
    assert_eq!(spec.url, "https://b.com/so/1/%E4%B8%89+%E5%9B%BD");
    let source = BookSource {
        bookSourceUrl: "https://b.com/".into(),
        searchUrl: Some("@js:url=baseUrl+\"/so?q=\"+key".into()),
        ..Default::default()
    };
    let spec = build_request(&source, "三 国").unwrap();
    assert_eq!(spec.url, "https://b.com/so?q=%E4%B8%89+%E5%9B%BD");
    assert_eq!(spec.method, "GET");
}

#[test]
fn build_request_post_and_missing_search_url() {
    let source = BookSource {
        bookSourceUrl: "https://c.com".into(),
        searchUrl: Some("/s,{\"body\":\"q={{key}}\",\"method\":\"POST\"}".into()),
        ..Default::default()
    };
    let spec = build_request(&source, "x").unwrap();
    assert_eq!(spec.url, "https://c.com/s");
    assert_eq!(spec.method, "POST");
    assert_eq!(spec.body, Some("q=x".into()));
    let none = BookSource::default();
    assert!(build_request(&none, "x").is_none());
}

#[test]
fn template_without_placeholders_is_unchanged() {
    assert_eq!(resolve_template("/search?q=fixed&p=2", "测试"), "/search?q=fixed&p=2");
    assert_eq!(resolve_template("{key}", "x"), "{key}");
}

#[test]
fn any_search_url_yields_a_request() {
    let source = BookSource {
        bookSourceUrl: "https://d.com/".into(),
        searchUrl: Some("".into()),
        ..Default::default()
    };
    let spec = build_request(&source, "k").unwrap();
    assert_eq!(spec.url, "https://d.com/");
    assert_eq!(spec.method, "GET");
}

#[test]
fn unresolved_javascript_search_url_yields_no_request() {
    let source = BookSource {
        bookSourceUrl: "https://a.com".into(),
        searchUrl: Some("@js:java.ajax(baseUrl)".into()),
        ..Default::default()
    };
    assert!(build_request(&source, "abc").is_none());
    let source = BookSource {
        bookSourceUrl: "https://a.com".into(),
        searchUrl: Some("/s?q={{key}}<js>result</js>".into()),
        ..Default::default()
    };
    assert!(build_request(&source, "abc").is_none());
    let source = BookSource {
        bookSourceUrl: "https://a.com/".into(),
        searchUrl: Some("@js:url = baseUrl + \"/search/\" + key".into()),
        ..Default::default()
    };
    assert_eq!(build_request(&source, "abc").unwrap().url, "https://a.com/search/abc");
}
