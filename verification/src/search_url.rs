//! Building the HTTP request a book source's `searchUrl` describes.
use vstd::prelude::*;
use vstd::utf8::encode_utf8;
use crate::regex_ops::{captures, first_group, group_one, regex_captures};
use crate::text::{
    chars_of, contains, contains_exec, find, find_exec, lemma_find, lowercase, matches_at, replace_all,
    replace_all_exec, starts_with, starts_with_exec, string_of, subvec, to_lowercase, trim,
    trim_chars, trim_end_char, trim_end_char_exec, trim_start_char, trim_start_char_exec,
    concat, extend,
};
use crate::types::BookSource;

verus! {

/// Specification for an HTTP request.
#[derive(Debug, Clone)]
pub struct RequestSpec {
    pub url: String,
    pub method: String,
    pub body: Option<String>,
    pub headers: Vec<(String, String)>,
    pub charset: Option<String>,
}

/// The content of a [`RequestSpec`].
pub struct RequestView {
    pub url: Seq<char>,
    pub method: Seq<char>,
    pub body: Option<Seq<char>>,
    pub headers: Seq<(Seq<char>, Seq<char>)>,
    pub charset: Option<Seq<char>>,
}

impl View for RequestSpec {
    type V = RequestView;

    open spec fn view(&self) -> RequestView {
        RequestView {
            url: self.url@,
            method: self.method@,
            body: self.body.deep_view(),
            headers: self.headers.deep_view(),
            charset: self.charset.deep_view(),
        }
    }
}

impl DeepView for RequestSpec {
    type V = RequestView;

    open spec fn deep_view(&self) -> RequestView {
        self@
    }
}

// ───────────────────────────── specifications ─────────────────────────────

/// `{{key}}`, `{{page}}`, `{{KEY}}` filled in with the keyword, `1`, the keyword.
pub open spec fn resolve_template_spec(s: Seq<char>, keyword: Seq<char>) -> Seq<char> {
    replace_all(
        replace_all(replace_all(s, "{{key}}"@, keyword), "{{page}}"@, "1"@),
        "{{KEY}}"@,
        keyword,
    )
}

/// `url` resolved against `base`: absolute URLs stay, others are joined
/// with exactly one `/`.
pub open spec fn resolve_url_spec(url: Seq<char>, base: Seq<char>) -> Seq<char> {
    if starts_with(url, "http://"@) || starts_with(url, "https://"@) {
        url
    } else {
        trim_end_char(base, '/') + "/"@ + trim_start_char(url, '/')
    }
}

pub open spec fn is_unreserved_byte(b: u8) -> bool {
    ||| 0x41 <= b <= 0x5a
    ||| 0x61 <= b <= 0x7a
    ||| 0x30 <= b <= 0x39
    ||| b == 0x2d
    ||| b == 0x5f
    ||| b == 0x2e
    ||| b == 0x7e
}

/// Upper-case hexadecimal digit of `n < 16`.
pub open spec fn hex_digit(n: u8) -> char {
    if n < 10 {
        ((0x30 + n) as u8) as char
    } else {
        ((0x41 + n - 10) as u8) as char
    }
}

/// One byte, percent-encoded: unreserved bytes as themselves, space as `+`,
/// everything else as `%XX`.
pub open spec fn encode_byte(b: u8) -> Seq<char> {
    if is_unreserved_byte(b) {
        seq![b as char]
    } else if b == 0x20 {
        seq!['+']
    } else {
        seq!['%', hex_digit(b / 16), hex_digit(b % 16)]
    }
}

pub open spec fn url_encode_bytes(bs: Seq<u8>) -> Seq<char>
    decreases bs.len(),
{
    if bs.len() == 0 {
        seq![]
    } else {
        url_encode_bytes(bs.drop_last()) + encode_byte(bs.last())
    }
}

/// The keyword encoding used inside `@js:` URLs: its UTF-8 bytes, percent-encoded.
pub open spec fn urlencoding_spec(s: Seq<char>) -> Seq<char> {
    url_encode_bytes(encode_utf8(s))
}

pub open spec fn js_l1_pattern() -> Seq<char> {
    r#"(?s)url\s*=\s*baseUrl\s*\+\s*"([^"]*)"\s*\+\s*(?:encodeURI\s*\(\s*)?key(?:\))?"#@
}

/// The URL an `@js:` body of the form `url = baseUrl + "/path/" + key`
/// yields, given the groups its pattern matched: the base, the path and the
/// encoded keyword.
pub open spec fn js_l1_url_spec(
    m: Option<Option<Seq<Option<Seq<char>>>>>,
    base_url: Seq<char>,
    keyword: Seq<char>,
) -> Option<Seq<char>> {
    match m {
        Some(Some(groups)) => {
            let path = match group_one(Some(groups)) {
                Some(p) => p,
                None => seq![],
            };
            Some(
                trim_end_char(base_url, '/') + resolve_template_spec(
                    path,
                    urlencoding_spec(keyword),
                ) + urlencoding_spec(keyword),
            )
        },
        _ => None,
    }
}

pub open spec fn resolve_js_l1_spec(search_url: Seq<char>, base_url: Seq<char>, keyword: Seq<char>) -> Option<
    Seq<char>,
> {
    if !starts_with(search_url, "@js:"@) {
        None
    } else {
        js_l1_url_spec(regex_captures(js_l1_pattern(), search_url.skip(4)), base_url, keyword)
    }
}

pub open spec fn body_single_pattern() -> Seq<char> {
    r"'body'\s*:\s*'([^']*)'"@
}

pub open spec fn body_double_pattern() -> Seq<char> {
    r#""body"\s*:\s*"([^"]*)""#@
}

pub open spec fn charset_single_pattern() -> Seq<char> {
    r"'charset'\s*:\s*'([^']*)'"@
}

pub open spec fn charset_double_pattern() -> Seq<char> {
    r#""charset"\s*:\s*"([^"]*)""#@
}

/// Group 1 of the first of two patterns that matches `s` (a match of the
/// first ends the search); `None` if a pattern does not compile.
pub open spec fn first_of_two_spec(p1: Seq<char>, p2: Seq<char>, s: Seq<char>) -> Option<Seq<char>> {
    match regex_captures(p1, s) {
        None => None,
        Some(Some(groups)) => group_one(Some(groups)),
        Some(None) => match regex_captures(p2, s) {
            None => None,
            Some(m) => group_one(m),
        },
    }
}

pub open spec fn post_body_spec(s: Seq<char>) -> Option<Seq<char>> {
    first_of_two_spec(body_single_pattern(), body_double_pattern(), s)
}

pub open spec fn post_charset_spec(s: Seq<char>) -> Option<Seq<char>> {
    match first_of_two_spec(charset_single_pattern(), charset_double_pattern(), s) {
        Some(c) => Some(lowercase(c)),
        None => None,
    }
}

pub open spec fn has_post_method(s: Seq<char>) -> bool {
    ||| contains(s, "'method':'POST'"@)
    ||| contains(s, "\"method\":\"POST\""@)
    ||| contains(s, "'method':'post'"@)
    ||| contains(s, "\"method\":\"post\""@)
}

/// The URL part of `path,{dict}`: what comes before the dict.
pub open spec fn post_url_part(s: Seq<char>) -> Seq<char> {
    match find(s, ",{"@) {
        Some(p) => s.take(p),
        None => match find(s, ", {\"method\""@) {
            Some(p) => s.take(p),
            None => match find(s, ", {'method'"@) {
                Some(p) => s.take(p),
                None => s,
            },
        },
    }
}

pub open spec fn try_parse_post_spec(s: Seq<char>, base_url: Seq<char>) -> Option<RequestView> {
    if !has_post_method(s) {
        None
    } else {
        match post_body_spec(s) {
            None => None,
            Some(body) => Some(
                RequestView {
                    url: resolve_url_spec(trim(post_url_part(s)), base_url),
                    method: "POST"@,
                    body: Some(body),
                    headers: seq![],
                    charset: post_charset_spec(s),
                },
            ),
        }
    }
}

pub open spec fn get_request(url: Seq<char>) -> RequestView {
    RequestView { url, method: "GET"@, body: None, headers: seq![], charset: None }
}

/// A `searchUrl` written in JavaScript (`@js:` or a `<js>` block).
pub open spec fn is_js_search_url(su: Seq<char>) -> bool {
    starts_with(su, "@js:"@) || contains(su, "<js>"@)
}

/// The URL a `searchUrl` stands for in this phase: an `@js:` concatenation
/// resolved, a template filled in; `None` for JavaScript it cannot resolve.
pub open spec fn effective_search_url(su: Seq<char>, base_url: Seq<char>, keyword: Seq<char>) -> Option<
    Seq<char>,
> {
    match resolve_js_l1_spec(su, base_url, keyword) {
        Some(u) => Some(u),
        None => if is_js_search_url(su) {
            None
        } else {
            Some(resolve_template_spec(su, keyword))
        },
    }
}

pub open spec fn build_request_spec(
    search_url: Option<Seq<char>>,
    base_url: Seq<char>,
    keyword: Seq<char>,
) -> Option<RequestView> {
    match search_url {
        None => None,
        Some(su) => match effective_search_url(su, base_url, keyword) {
            None => None,
            Some(effective) => match try_parse_post_spec(effective, base_url) {
                Some(r) => Some(r),
                None => Some(get_request(resolve_url_spec(effective, base_url))),
            },
        },
    }
}

// ───────────────────────────── laws ─────────────────────────────

/// Law: an absolute URL (`http://` or `https://`) is used as it is, whatever
/// the base; any other URL is placed under the base.
pub proof fn lemma_absolute_urls_kept(url: Seq<char>, base: Seq<char>)
    ensures
        starts_with(url, "http://"@) || starts_with(url, "https://"@) ==> resolve_url_spec(url, base)
            == url,
        !(starts_with(url, "http://"@) || starts_with(url, "https://"@)) ==> starts_with(
            resolve_url_spec(url, base),
            trim_end_char(base, '/') + "/"@,
        ),
{
    let head = trim_end_char(base, '/') + "/"@;
    assert((head + trim_start_char(url, '/')).subrange(0, head.len() as int) =~= head);
}

/// Law: a plain search URL (not JavaScript, no `POST` dict) whose filled-in
/// template is absolute is fetched with `GET` at exactly that URL.
pub proof fn lemma_absolute_search_url_used_as_is(su: Seq<char>, base: Seq<char>, keyword: Seq<char>)
    requires
        !is_js_search_url(su),
        !has_post_method(resolve_template_spec(su, keyword)),
        starts_with(resolve_template_spec(su, keyword), "http://"@) || starts_with(
            resolve_template_spec(su, keyword),
            "https://"@,
        ),
    ensures
        build_request_spec(Some(su), base, keyword) == Some(
            RequestView {
                url: resolve_template_spec(su, keyword),
                method: "GET"@,
                body: None,
                headers: seq![],
                charset: None,
            },
        ),
{
    assert(!starts_with(su, "@js:"@));
}

/// The value of an upper-case hexadecimal digit.
pub open spec fn hex_value(d: char) -> int {
    if '0' <= d <= '9' {
        d as int - '0' as int
    } else {
        d as int - 'A' as int + 10
    }
}

pub open spec fn is_upper_hex_digit(d: char) -> bool {
    ('0' <= d <= '9') || ('A' <= d <= 'F')
}

/// Law: a byte is percent-encoded as the URL form encoding says: an ASCII
/// letter or digit and `-`, `_`, `.`, `~` stay as they are, a space becomes
/// `+`, and every other byte becomes `%` followed by two upper-case hex
/// digits that spell its value.
pub proof fn lemma_byte_encoding(b: u8)
    ensures
        (0x41 <= b <= 0x5a || 0x61 <= b <= 0x7a || 0x30 <= b <= 0x39 || b == 0x2d || b == 0x5f
            || b == 0x2e || b == 0x7e) ==> url_encode_bytes(seq![b]) == seq![b as char],
        b == 0x20 ==> url_encode_bytes(seq![b]) == seq!['+'],
        !(0x41 <= b <= 0x5a || 0x61 <= b <= 0x7a || 0x30 <= b <= 0x39 || b == 0x2d || b == 0x5f
            || b == 0x2e || b == 0x7e || b == 0x20) ==> ({
            let e = url_encode_bytes(seq![b]);
            &&& e.len() == 3
            &&& e[0] == '%'
            &&& is_upper_hex_digit(e[1]) && is_upper_hex_digit(e[2])
            &&& hex_value(e[1]) * 16 + hex_value(e[2]) == b
        }),
{
    let one = seq![b];
    assert(one.drop_last() =~= Seq::<u8>::empty());
    assert(url_encode_bytes(one) == url_encode_bytes(Seq::<u8>::empty()) + encode_byte(b));
    assert(url_encode_bytes(one) =~= encode_byte(b));
    let hi = b / 16;
    let lo = b % 16;
    assert(hi < 16 && lo < 16);
    assert(hi * 16 + lo == b);
}

/// Law: bytes are encoded one by one: the encoding of `a + b` is that of
/// `a` followed by that of `b`.
pub proof fn lemma_encoding_concatenates(a: Seq<u8>, b: Seq<u8>)
    ensures
        url_encode_bytes(a + b) == url_encode_bytes(a) + url_encode_bytes(b),
    decreases b.len(),
{
    if b.len() == 0 {
        assert(a + b =~= a);
        assert(url_encode_bytes(a) + url_encode_bytes(b) =~= url_encode_bytes(a));
    } else {
        lemma_encoding_concatenates(a, b.drop_last());
        assert((a + b).drop_last() =~= a + b.drop_last());
        assert((a + b).last() == b.last());
        assert(url_encode_bytes(a) + url_encode_bytes(b) =~= url_encode_bytes(a) + url_encode_bytes(
            b.drop_last(),
        ) + encode_byte(b.last()));
    }
}

/// `s` holds no `{`.
pub open spec fn no_brace(s: Seq<char>) -> bool {
    forall|i: int| 0 <= i < s.len() ==> s[i] != '{'
}

/// A pattern starting with `{` does not occur in text without `{`, so
/// replacing it changes nothing.
proof fn lemma_replace_absent(s: Seq<char>, p: Seq<char>, r: Seq<char>)
    requires
        no_brace(s),
        p.len() > 0,
        p[0] == '{',
    ensures
        replace_all(s, p, r) == s,
{
    lemma_find(s, p);
    if contains(s, p) {
        let i = choose|i: int| matches_at(s, p, i);
        assert(s.subrange(i, i + p.len())[0] == s[i]);
    }
}

/// In `a + p + b` with no `{` in `a`, the first occurrence of a pattern that
/// starts with `{` is the one after `a`.
proof fn lemma_replace_after_plain(a: Seq<char>, p: Seq<char>, b: Seq<char>, r: Seq<char>)
    requires
        no_brace(a),
        no_brace(b),
        p.len() > 0,
        p[0] == '{',
    ensures
        replace_all(a + p + b, p, r) == a + r + b,
{
    let s = a + p + b;
    lemma_find(s, p);
    assert(s.subrange(a.len() as int, (a.len() + p.len()) as int) =~= p);
    assert(matches_at(s, p, a.len() as int));
    let k = find(s, p)->0;
    if k < a.len() {
        assert(s.subrange(k, k + p.len())[0] == s[k]);
        assert(s[k] == a[k]);
    }
    assert(k == a.len());
    assert(s.take(k) =~= a);
    assert(s.skip(k + p.len()) =~= b);
    lemma_replace_absent(b, p, r);
}

/// One placeholder does not occur where another stands in plain text.
proof fn lemma_other_placeholder_absent(
    a: Seq<char>,
    q: Seq<char>,
    b: Seq<char>,
    p: Seq<char>,
    r: Seq<char>,
)
    requires
        no_brace(a),
        no_brace(b),
        p.len() >= 3,
        q.len() >= 3,
        p[0] == '{',
        p[1] == '{',
        q[0] == '{',
        q[1] == '{',
        p[2] != q[2],
        forall|j: int| 2 <= j < q.len() ==> q[j] != '{',
    ensures
        replace_all(a + q + b, p, r) == a + q + b,
{
    let s = a + q + b;
    lemma_find(s, p);
    if contains(s, p) {
        let i = choose|i: int| matches_at(s, p, i);
        let m = s.subrange(i, i + p.len());
        assert(m[0] == s[i] && m[1] == s[i + 1] && m[2] == s[i + 2]);
        if i < a.len() {
            assert(s[i] == a[i]);
        } else if i >= a.len() + q.len() {
            assert(s[i] == b[i - a.len() - q.len()]);
        } else if i >= a.len() + 2 {
            assert(s[i] == q[i - a.len()]);
        } else if i == a.len() {
            assert(s[i + 2] == q[2]);
        } else {
            assert(s[i + 1] == q[2]);
        }
    }
}

proof fn lemma_join_no_brace(a: Seq<char>, m: Seq<char>, b: Seq<char>)
    requires
        no_brace(a),
        no_brace(m),
        no_brace(b),
    ensures
        no_brace(a + m + b),
{
    let s = a + m + b;
    assert forall|i: int| 0 <= i < s.len() implies s[i] != '{' by {
        if i < a.len() {
            assert(s[i] == a[i]);
        } else if i < a.len() + m.len() {
            assert(s[i] == m[i - a.len()]);
        } else {
            assert(s[i] == b[i - a.len() - m.len()]);
        }
    }
}

/// Law: a template's placeholders are filled in: in `a{{key}}b` or
/// `a{{KEY}}b` (no `{` in `a`, `b` or the keyword) the placeholder becomes the
/// keyword, and in `a{{page}}b` it becomes `1`.
pub proof fn lemma_template_placeholders_filled(a: Seq<char>, b: Seq<char>, keyword: Seq<char>)
    requires
        no_brace(a),
        no_brace(b),
        no_brace(keyword),
    ensures
        resolve_template_spec(a + "{{key}}"@ + b, keyword) == a + keyword + b,
        resolve_template_spec(a + "{{KEY}}"@ + b, keyword) == a + keyword + b,
        resolve_template_spec(a + "{{page}}"@ + b, keyword) == a + "1"@ + b,
{
    reveal_strlit("{{key}}");
    reveal_strlit("{{KEY}}");
    reveal_strlit("{{page}}");
    reveal_strlit("1");
    let key = "{{key}}"@;
    let upper = "{{KEY}}"@;
    let page = "{{page}}"@;
    let one = "1"@;
    assert(no_brace(one));
    lemma_join_no_brace(a, keyword, b);
    lemma_join_no_brace(a, one, b);
    let akb = a + keyword + b;
    let a1b = a + one + b;
    // a{{key}}b
    lemma_replace_after_plain(a, key, b, keyword);
    lemma_replace_absent(akb, page, one);
    lemma_replace_absent(akb, upper, keyword);
    // a{{KEY}}b
    lemma_other_placeholder_absent(a, upper, b, key, keyword);
    lemma_other_placeholder_absent(a, upper, b, page, one);
    lemma_replace_after_plain(a, upper, b, keyword);
    // a{{page}}b
    lemma_other_placeholder_absent(a, page, b, key, keyword);
    lemma_replace_after_plain(a, page, b, one);
    lemma_replace_absent(a1b, upper, keyword);
}

/// Law: a request comes back exactly for a source with a `searchUrl` that is
/// not JavaScript, or whose JavaScript is the resolvable concatenation; and a
/// request that comes back is a `GET` unless the URL asks for `POST`.
pub proof fn lemma_build_request_defined(
    search_url: Option<Seq<char>>,
    base_url: Seq<char>,
    keyword: Seq<char>,
)
    ensures
        build_request_spec(search_url, base_url, keyword) is Some <==> (search_url matches Some(
            su,
        ) && (!is_js_search_url(su) || resolve_js_l1_spec(su, base_url, keyword) is Some)),
        build_request_spec(search_url, base_url, keyword) matches Some(r) ==> (r.method == "GET"@
            || r.method == "POST"@),
{
}

/// A pattern that has `q` as a prefix occurs only where `q` occurs.
proof fn lemma_occurrence_of_longer(s: Seq<char>, q: Seq<char>, p: Seq<char>)
    requires
        starts_with(p, q),
        !contains(s, q),
    ensures
        !contains(s, p),
{
    if contains(s, p) {
        let i = choose|i: int| matches_at(s, p, i);
        assert(s.subrange(i, i + q.len()) =~= p.subrange(0, q.len() as int));
        assert(matches_at(s, q, i));
    }
}

/// A template without `{{` holds no placeholder: filling it in changes nothing.
pub proof fn lemma_template_without_placeholders_unchanged(s: Seq<char>, keyword: Seq<char>)
    requires
        !contains(s, "{{"@),
    ensures
        resolve_template_spec(s, keyword) == s,
{
    reveal_strlit("{{");
    reveal_strlit("{{key}}");
    reveal_strlit("{{page}}");
    reveal_strlit("{{KEY}}");
    assert("{{key}}"@.subrange(0, 2) =~= "{{"@);
    assert(starts_with("{{key}}"@, "{{"@));
    assert("{{page}}"@.subrange(0, 2) =~= "{{"@);
    assert(starts_with("{{page}}"@, "{{"@));
    assert("{{KEY}}"@.subrange(0, 2) =~= "{{"@);
    assert(starts_with("{{KEY}}"@, "{{"@));
    lemma_occurrence_of_longer(s, "{{"@, "{{key}}"@);
    lemma_find(s, "{{key}}"@);
    lemma_occurrence_of_longer(s, "{{"@, "{{page}}"@);
    lemma_find(s, "{{page}}"@);
    lemma_occurrence_of_longer(s, "{{"@, "{{KEY}}"@);
    lemma_find(s, "{{KEY}}"@);
}

// ───────────────────────────── executable ─────────────────────────────

fn resolve_template_chars(s: &[char], keyword: &[char]) -> (r: Vec<char>)
    ensures
        r@ == resolve_template_spec(s@, keyword@),
{
    let key = chars_of("{{key}}");
    let page = chars_of("{{page}}");
    let upper_key = chars_of("{{KEY}}");
    proof {
        reveal_strlit("{{key}}");
        reveal_strlit("{{page}}");
        reveal_strlit("{{KEY}}");
    }
    let a = replace_all_exec(s, &key, keyword);
    let b = replace_all_exec(&a, &page, &chars_of("1"));
    replace_all_exec(&b, &upper_key, keyword)
}

/// Replace `{{key}}`, `{{page}}` templates in a string.
pub fn resolve_template(s: &str, keyword: &str) -> (r: String)
    ensures
        r@ == resolve_template_spec(s@, keyword@),
{
    string_of(&resolve_template_chars(&chars_of(s), &chars_of(keyword)))
}

fn resolve_url_chars(url: &[char], base: &[char]) -> (r: Vec<char>)
    ensures
        r@ == resolve_url_spec(url@, base@),
{
    if starts_with_exec(url, &chars_of("http://")) || starts_with_exec(url, &chars_of("https://")) {
        let r = subvec(url, 0, url.len());
        assert(r@ =~= url@);
        return r;
    }
    let b = trim_end_char_exec(base, '/');
    let u = trim_start_char_exec(url, '/');
    let mut r = concat(&b, &chars_of("/"));
    extend(&mut r, &u);
    r
}

/// Resolve a possibly-relative URL against a base URL.
pub fn resolve_url(url: &str, base: &str) -> (r: String)
    ensures
        r@ == resolve_url_spec(url@, base@),
{
    string_of(&resolve_url_chars(&chars_of(url), &chars_of(base)))
}

fn hex_digit_exec(n: u8) -> (c: char)
    requires
        n < 16,
    ensures
        c == hex_digit(n),
{
    if n < 10 {
        (0x30 + n) as char
    } else {
        (0x41 + n - 10) as char
    }
}

/// Percent-encoding of the keyword's UTF-8 bytes (space as `+`).
pub fn urlencoding(s: &str) -> (r: String)
    ensures
        r@ == urlencoding_spec(s@),
{
    let bytes = s.as_bytes();
    let mut out: Vec<char> = Vec::new();
    let mut i: usize = 0;
    assert(bytes@.take(0) =~= Seq::<u8>::empty());
    while i < bytes.len()
        invariant
            i <= bytes@.len(),
            bytes@ == encode_utf8(s@),
            out@ == url_encode_bytes(bytes@.take(i as int)),
        decreases bytes.len() - i,
    {
        let b = bytes[i];
        let ghost before = out@;
        if (0x41 <= b && b <= 0x5a) || (0x61 <= b && b <= 0x7a) || (0x30 <= b && b <= 0x39) || b
            == 0x2d || b == 0x5f || b == 0x2e || b == 0x7e {
            out.push(b as char);
        } else if b == 0x20 {
            out.push('+');
        } else {
            out.push('%');
            out.push(hex_digit_exec(b / 16));
            out.push(hex_digit_exec(b % 16));
        }
        assert(out@ =~= before + encode_byte(b));
        assert(bytes@.take(i + 1).drop_last() =~= bytes@.take(i as int));
        i += 1;
    }
    assert(bytes@.take(bytes@.len() as int) =~= bytes@);
    string_of(&out)
}

/// The URL of an `@js:` body of the form `url = baseUrl + "/path/" + key`,
/// given what its pattern matched.
pub fn js_l1_url(m: Option<Option<Vec<Option<String>>>>, base_url: &str, keyword: &str) -> (r:
    Option<String>)
    ensures
        r.deep_view() == js_l1_url_spec(m.deep_view(), base_url@, keyword@),
{
    match m {
        Some(Some(groups)) => {
            let path = match first_group(Some(groups)) {
                Some(p) => chars_of(p.as_str()),
                None => Vec::new(),
            };
            let key_enc = urlencoding(keyword);
            let resolved = resolve_template_chars(&path, &chars_of(key_enc.as_str()));
            let base = trim_end_char_exec(&chars_of(base_url), '/');
            let mut url = concat(&base, &resolved);
            extend(&mut url, &chars_of(key_enc.as_str()));
            Some(string_of(&url))
        },
        _ => None,
    }
}

/// Resolve `@js:` L1 patterns with Rust-side string processing.
pub fn resolve_js_l1(search_url: &str, base_url: &str, keyword: &str) -> (r: Option<String>)
    ensures
        r.deep_view() == resolve_js_l1_spec(search_url@, base_url@, keyword@),
{
    let su = chars_of(search_url);
    if !starts_with_exec(&su, &chars_of("@js:")) {
        return None;
    }
    proof {
        reveal_strlit("@js:");
    }
    let body = subvec(&su, 4, su.len());
    assert(body@ =~= search_url@.skip(4));
    let body_str = string_of(&body);
    let m = captures(
        r#"(?s)url\s*=\s*baseUrl\s*\+\s*"([^"]*)"\s*\+\s*(?:encodeURI\s*\(\s*)?key(?:\))?"#,
        body_str.as_str(),
    );
    js_l1_url(m, base_url, keyword)
}

/// Group 1 of the first of two patterns that matches `s`.
fn first_of_two(p1: &str, p2: &str, s: &str) -> (r: Option<String>)
    ensures
        r.deep_view() == first_of_two_spec(p1@, p2@, s@),
{
    match captures(p1, s) {
        None => None,
        Some(Some(groups)) => first_group(Some(groups)),
        Some(None) => match captures(p2, s) {
            None => None,
            Some(m) => first_group(m),
        },
    }
}

/// The `body` of a Legado POST dict (`'body':'…'` or `"body":"…"`).
pub fn extract_post_body(s: &str) -> (r: Option<String>)
    ensures
        r.deep_view() == post_body_spec(s@),
{
    first_of_two(r"'body'\s*:\s*'([^']*)'", r#""body"\s*:\s*"([^"]*)""#, s)
}

/// The lower-cased `charset` of a Legado POST dict.
pub fn extract_charset(s: &str) -> (r: Option<String>)
    ensures
        r.deep_view() == post_charset_spec(s@),
{
    match first_of_two(r"'charset'\s*:\s*'([^']*)'", r#""charset"\s*:\s*"([^"]*)""#, s) {
        Some(c) => Some(to_lowercase(c.as_str())),
        None => None,
    }
}

fn post_url_part_chars(s: &[char]) -> (r: Vec<char>)
    ensures
        r@ == post_url_part(s@),
{
    let n = s.len();
    let p1 = chars_of(",{");
    let p2 = chars_of(", {\"method\"");
    let p3 = chars_of(", {'method'");
    proof {
        lemma_find(s@, p1@);
        lemma_find(s@, p2@);
        lemma_find(s@, p3@);
    }
    let end = match find_exec(s, &p1) {
        Some(p) => p,
        None => match find_exec(s, &p2) {
            Some(p) => p,
            None => match find_exec(s, &p3) {
                Some(p) => p,
                None => n,
            },
        },
    };
    let r = subvec(s, 0, end);
    assert(r@ =~= s@.take(end as int));
    assert(s@.take(n as int) =~= s@);
    r
}

/// Try to parse a search URL as a POST request in Legado format: `path,{dict}`.
pub fn try_parse_post(search_url: &str, base_url: &str) -> (r: Option<RequestSpec>)
    ensures
        r.deep_view() == try_parse_post_spec(search_url@, base_url@),
{
    let s = chars_of(search_url);
    let has_post = contains_exec(&s, &chars_of("'method':'POST'")) || contains_exec(
        &s,
        &chars_of("\"method\":\"POST\""),
    ) || contains_exec(&s, &chars_of("'method':'post'")) || contains_exec(
        &s,
        &chars_of("\"method\":\"post\""),
    );
    if !has_post {
        return None;
    }
    let body = match extract_post_body(search_url) {
        Some(b) => b,
        None => {
            return None;
        },
    };
    let charset = extract_charset(search_url);
    let part = post_url_part_chars(&s);
    let url = resolve_url_chars(&trim_chars(&part), &chars_of(base_url));
    let headers: Vec<(String, String)> = Vec::new();
    let r = RequestSpec {
        url: string_of(&url),
        method: string_of(&chars_of("POST")),
        body: Some(body),
        headers,
        charset,
    };
    assert(r@.headers =~= Seq::<(Seq<char>, Seq<char>)>::empty());
    Some(r)
}

/// Build an HTTP request spec from a book source and keyword.
/// Returns None if the search URL type is not supported by this phase: no
/// search URL, or JavaScript other than the `url = baseUrl + "…" + key` form.
pub fn build_request(source: &BookSource, keyword: &str) -> (r: Option<RequestSpec>)
    ensures
        r.deep_view() == build_request_spec(
            source.searchUrl.deep_view(),
            source.bookSourceUrl@,
            keyword@,
        ),
{
    let search_url = match &source.searchUrl {
        Some(su) => su.as_str(),
        None => {
            return None;
        },
    };
    let base_url = source.bookSourceUrl.as_str();
    let effective = match resolve_js_l1(search_url, base_url, keyword) {
        Some(u) => u,
        None => {
            let su = chars_of(search_url);
            if starts_with_exec(&su, &chars_of("@js:")) || contains_exec(&su, &chars_of("<js>")) {
                return None;
            }
            resolve_template(search_url, keyword)
        },
    };
    match try_parse_post(effective.as_str(), base_url) {
        Some(spec) => Some(spec),
        None => {
            let url = resolve_url(effective.as_str(), base_url);
            let headers: Vec<(String, String)> = Vec::new();
            let r = RequestSpec {
                url,
                method: string_of(&chars_of("GET")),
                body: None,
                headers,
                charset: None,
            };
            assert(r@.headers =~= Seq::<(Seq<char>, Seq<char>)>::empty());
            Some(r)
        },
    }
}

} // verus!
