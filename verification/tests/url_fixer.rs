use legado_source_filter::url_fixer::fix_url;

#[test]
fn test_already_valid() {
    assert_eq!(fix_url("https://example.com"), Some("https://example.com".into()));
    assert_eq!(fix_url("http://example.com"), Some("http://example.com".into()));
}

#[test]
fn test_strip_image_prefix() {
    assert_eq!(
        fix_url("[图片]http://www.sfacg.com"),
        Some("http://www.sfacg.com".into())
    );
}

#[test]
fn test_add_https() {
    assert_eq!(
        fix_url("www.example.com"),
        Some("https://www.example.com".into())
    );
    assert_eq!(
        fix_url("m.example.com"),
        Some("https://m.example.com".into())
    );
    assert_eq!(
        fix_url("novel.html5.qq.com"),
        Some("https://novel.html5.qq.com".into())
    );
}

#[test]
fn test_fix_http_colon() {
    assert_eq!(
        fix_url("http:www.example.com"),
        Some("http://www.example.com".into())
    );
}

#[test]
fn test_trim_whitespace() {
    assert_eq!(
        fix_url(" https://example.com"),
        Some("https://example.com".into())
    );
}

#[test]
fn test_unfixable() {
    assert_eq!(fix_url("小说合集"), None);
    assert_eq!(fix_url("DQuestQBall"), None);
    assert_eq!(fix_url(""), None);
    assert_eq!(fix_url("一个书源"), None);
}

#[test]
fn fix_url_image_prefix_without_scheme_separator() {
    assert_eq!(fix_url("[图片]httpfoo"), None);
    assert_eq!(fix_url("[图片]httpx.com"), None);
    assert_eq!(fix_url("[图片]https://a.com"), Some("https://a.com".into()));
    assert_eq!(fix_url("httpfoo"), None);
}

#[test]
fn fix_url_rejects_spaces_and_fullwidth_colon() {
    assert_eq!(fix_url("a.b c"), None);
    assert_eq!(fix_url("书源：a.com"), None);
    assert_eq!(fix_url(".com"), None);
    assert_eq!(fix_url("\u{3000}www.a.com\t"), Some("https://www.a.com".into()));
}

#[test]
fn test_url_fixer_cases() {
    assert_eq!(fix_url("https://example.com"), Some("https://example.com".into()));
    assert_eq!(fix_url("www.example.com"), Some("https://www.example.com".into()));
    assert_eq!(fix_url("m.xxbiqudu.com"), Some("https://m.xxbiqudu.com".into()));
    assert_eq!(
        fix_url("[图片]http://www.sfacg.com"),
        Some("http://www.sfacg.com".into())
    );
    assert_eq!(fix_url("小说合集"), None);
    assert_eq!(fix_url("DQuestQBall"), None);
}
