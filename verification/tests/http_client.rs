use legado_source_filter::http_client::{
    decode_body, detection_result, extract_charset_from_header, headers_from_matches,
    hint_decode, parse_headers,
};
use legado_source_filter::js_polyfill::runner::parse_runner_output;
use legado_source_filter::js_polyfill::{classify_js, JsLevel};

#[test]
fn test_parse_headers_simple() {
    let h = parse_headers("{'User-Agent': 'Mozilla/5.0'}");
    assert_eq!(h, vec![("User-Agent".to_string(), "Mozilla/5.0".to_string())]);
}

#[test]
fn test_parse_headers_multi() {
    let h = parse_headers("{'key1': 'val1', 'key2': 'val2'}");
    assert_eq!(h.len(), 2);
    assert_eq!(h[0].0, "key1");
    assert_eq!(h[1].0, "key2");
}

#[test]
fn test_extract_charset_from_header() {
    assert_eq!(
        extract_charset_from_header("text/html; charset=gbk"),
        Some("gbk".into())
    );
    assert_eq!(
        extract_charset_from_header("text/html"),
        None
    );
}

#[test]
fn charset_header_variants() {
    assert_eq!(extract_charset_from_header("Text/HTML; Charset=UTF-8; x"), Some("utf-8".into()));
    assert_eq!(extract_charset_from_header("text/html; charset=;"), None);
    assert_eq!(parse_headers(""), vec![]);
    assert_eq!(
        headers_from_matches(vec![vec![Some("m".into()), Some("k".into()), Some("v".into())], vec![None]]),
        vec![("k".to_string(), "v".to_string())]
    );
}

#[test]
fn decode_body_priorities() {
    // GBK bytes for "中文"
    let gbk = [0xd6u8, 0xd0, 0xce, 0xc4];
    let (text, cs, uncertain) = decode_body(&gbk, "text/html; charset=gbk", &None);
    assert_eq!((text.as_str(), cs.as_deref(), uncertain), ("中文", Some("gbk"), false));
    let (text, cs, uncertain) = decode_body(&gbk, "text/html", &Some("gbk".into()));
    assert_eq!((text.as_str(), cs.as_deref(), uncertain), ("中文", Some("gbk"), false));
    let (text, cs, uncertain) = decode_body(b"hello", "text/html", &None);
    assert_eq!(text, "hello");
    assert!(cs.is_some());
    assert!(uncertain, "short bodies are uncertain");
    assert_eq!(
        hint_decode(Some(("t".into(), true)), &"gbk".to_string()),
        None
    );
    assert_eq!(
        detection_result(("t".into(), "UTF-8".into(), false), 100),
        ("t".into(), Some("utf-8".into()), false)
    );
}

#[test]
fn js_levels() {
    assert_eq!(classify_js("@js:url=baseUrl+key"), JsLevel::L1);
    assert_eq!(classify_js("@js:java.startBrowserAwait(u)"), JsLevel::L3Unrecoverable);
    assert_eq!(classify_js("@js:java.ajax(u)"), JsLevel::L3Polyfillable);
    assert_eq!(classify_js("@js:a\nb\nc\nd\ne"), JsLevel::L2);
    assert_eq!(classify_js("@js:function f(){}"), JsLevel::L2);
    assert_eq!(classify_js("/s<js>java.post(x)</js>"), JsLevel::L3Polyfillable);
    assert_eq!(classify_js("/s<js>1</js>"), JsLevel::L2);
    assert_eq!(classify_js("/s?k={{key}}"), JsLevel::Template);
    assert_eq!(classify_js("/s"), JsLevel::PlainUrl);
}

#[test]
fn runner_output_is_read_from_last_result_line() {
    let out = "noise\n{\"type\":\"result\",\"url\":\"https://a/1\"}\n{\"type\":\"log\"}\n";
    assert_eq!(parse_runner_output(out), Some("https://a/1".into()));
    let out = "{\"type\":\"result\",\"url\":\"a\"}\r\n{\"type\":\"result\",\"url\":\"b\"}\r\n";
    assert_eq!(parse_runner_output(out), Some("b".into()));
    assert_eq!(parse_runner_output("{\"type\":\"error\",\"message\":\"x\"}"), None);
    assert_eq!(parse_runner_output(""), None);
    assert_eq!(parse_runner_output("{\"type\":\"result\",\"url\":3}"), None);
}
