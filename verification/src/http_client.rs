//! The computing parts of fetching a search page: decoding the body, reading
//! the charset of a `Content-Type`, parsing a source's header dict. (Sending
//! requests is I/O and stays with the program.)
use vstd::prelude::*;
use crate::regex_ops::{captures_all, regex_captures_all};
use crate::text::{
    chars_of, find, find_exec, lemma_find, matches_at, lemma_vec_push_deep_view, lowercase, string_of, subvec,
    to_lowercase,
};

verus! {

#[derive(Debug)]
pub struct FetchResult {
    pub body_text: String,
    pub body_bytes: Vec<u8>,
    pub content_type: String,
    pub status_code: u16,
    pub elapsed_ms: u64,
    pub charset_detected: Option<String>,
    pub charset_uncertain: bool,
}

// ───────────────────────────── outside calls ─────────────────────────────

/// What `encoding_rs::Encoding::for_label(label)` followed by
/// `Encoding::decode(bytes)` yields: `None` for an unknown label, else the
/// decoded text and whether malformed sequences were replaced.
pub uninterp spec fn label_decode(label: Seq<char>, bytes: Seq<u8>) -> Option<(Seq<char>, bool)>;

/// What a `chardetng::EncodingDetector` fed `bytes` (with `last`) guesses
/// (`guess(None, Utf8Detection::Allow)`, ISO-2022-JP allowed), and that encoding's `decode(bytes)`: the text, the
/// encoding's name, and whether malformed sequences were replaced.
pub uninterp spec fn detected_decode(bytes: Seq<u8>, last: bool) -> (Seq<char>, Seq<char>, bool);

/// Trusted: `Encoding::for_label(label)` and, when found, `decode(bytes)`.
#[verifier::external_body]
fn decode_with_label(label: &str, bytes: &[u8]) -> (r: Option<(String, bool)>)
    ensures
        r.deep_view() == label_decode(label@, bytes@),
{
    encoding_rs::Encoding::for_label(label.as_bytes()).map(|enc| {
        let (text, _, had_errors) = enc.decode(bytes);
        (text.into_owned(), had_errors)
    })
}

/// Trusted: `chardetng` detection over `bytes`, then decoding with the guess.
#[verifier::external_body]
fn detect_and_decode(bytes: &[u8], last: bool) -> (r: (String, String, bool))
    ensures
        r.deep_view() == detected_decode(bytes@, last),
{
    let mut detector = chardetng::EncodingDetector::new(chardetng::Iso2022JpDetection::Allow);
    detector.feed(bytes, last);
    let encoding = detector.guess(None, chardetng::Utf8Detection::Allow);
    let (text, _, had_errors) = encoding.decode(bytes);
    (text.into_owned(), encoding.name().to_string(), had_errors)
}

// ───────────────────────────── specifications ─────────────────────────────

pub open spec fn is_charset_delim(c: char) -> bool {
    c == ';' || c == ' ' || c == ','
}

/// `s` up to its first `;`, space or `,`.
pub open spec fn take_until_delim(s: Seq<char>) -> Seq<char>
    decreases s.len(),
{
    if s.len() == 0 || is_charset_delim(s[0]) {
        seq![]
    } else {
        seq![s[0]] + take_until_delim(s.drop_first())
    }
}

/// The `charset=` value of a lower-cased `Content-Type`, when non-empty.
pub open spec fn charset_from_header_spec(content_type: Seq<char>) -> Option<Seq<char>> {
    let lower = lowercase(content_type);
    match find(lower, "charset="@) {
        Some(pos) => {
            let cs = take_until_delim(lower.skip(pos + 8));
            if cs.len() > 0 {
                Some(cs)
            } else {
                None
            }
        },
        None => None,
    }
}

/// Decoding with the `searchUrl` charset hint, kept only if clean.
pub open spec fn hint_decode_spec(decoded: Option<(Seq<char>, bool)>, charset: Seq<char>) -> Option<
    (Seq<char>, Option<Seq<char>>, bool),
> {
    match decoded {
        Some((text, had_errors)) => if !had_errors {
            Some((text, Some(charset), false))
        } else {
            None
        },
        None => None,
    }
}

/// Detection result: the lower-cased encoding name, uncertain when the
/// decoding replaced bytes or there were fewer than 64 of them.
pub open spec fn detection_spec(decoded: (Seq<char>, Seq<char>, bool), len: nat) -> (
    Seq<char>,
    Option<Seq<char>>,
    bool,
) {
    (decoded.0, Some(lowercase(decoded.1)), decoded.2 || len < 64)
}

/// Body text, charset used and whether it is uncertain: the header charset
/// first, then the `searchUrl` hint, then detection.
pub open spec fn decode_body_spec(
    bytes: Seq<u8>,
    content_type: Seq<char>,
    url_charset: Option<Seq<char>>,
) -> (Seq<char>, Option<Seq<char>>, bool) {
    let from_header = match charset_from_header_spec(content_type) {
        Some(cs) => match label_decode(cs, bytes) {
            Some((text, _)) => Some((text, Some(cs), false)),
            None => None,
        },
        None => None,
    };
    match from_header {
        Some(r) => r,
        None => {
            let from_hint = match url_charset {
                Some(c) => hint_decode_spec(label_decode(c, bytes), c),
                None => None,
            };
            match from_hint {
                Some(r) => r,
                None => detection_spec(detected_decode(bytes, bytes.len() < 1024), bytes.len()),
            }
        },
    }
}

pub open spec fn header_pattern() -> Seq<char> {
    r#"['"]([^'"]+)['"]\s*:\s*['"]([^'"]*)['"]"#@
}

/// `(group 1, group 2)` of each match that has both.
pub open spec fn header_pairs(matches: Seq<Seq<Option<Seq<char>>>>) -> Seq<(Seq<char>, Seq<char>)>
    decreases matches.len(),
{
    if matches.len() == 0 {
        seq![]
    } else {
        let m = matches.last();
        header_pairs(matches.drop_last()) + if m.len() > 2 && m[1] is Some && m[2] is Some {
            seq![(m[1]->0, m[2]->0)]
        } else {
            seq![]
        }
    }
}

pub open spec fn parse_headers_spec(header_str: Seq<char>) -> Seq<(Seq<char>, Seq<char>)> {
    if header_str.len() == 0 {
        seq![]
    } else {
        match regex_captures_all(header_pattern(), header_str) {
            Some(matches) => header_pairs(matches),
            None => seq![],
        }
    }
}

// ───────────────────────────── laws ─────────────────────────────

/// What `take_until_delim` keeps is a prefix with no delimiter, followed by
/// a delimiter or the end.
proof fn lemma_take_until_delim(s: Seq<char>)
    ensures
        take_until_delim(s).len() <= s.len(),
        s.take(take_until_delim(s).len() as int) == take_until_delim(s),
        forall|i: int| 0 <= i < take_until_delim(s).len() ==> !is_charset_delim(#[trigger] take_until_delim(s)[i]),
        take_until_delim(s).len() < s.len() ==> is_charset_delim(s[take_until_delim(s).len() as int]),
    decreases s.len(),
{
    if s.len() > 0 && !is_charset_delim(s[0]) {
        let rest = s.drop_first();
        lemma_take_until_delim(rest);
        let t = take_until_delim(s);
        assert(t =~= seq![s[0]] + take_until_delim(rest));
        assert(s.take(t.len() as int) =~= seq![s[0]] + rest.take(take_until_delim(rest).len() as int));
        assert forall|i: int| 0 <= i < t.len() implies !is_charset_delim(#[trigger] t[i]) by {
            if i > 0 {
                assert(t[i] == take_until_delim(rest)[i - 1]);
            }
        }
        if t.len() < s.len() {
            assert(s[t.len() as int] == rest[take_until_delim(rest).len() as int]);
        }
    } else {
        assert(s.take(0) =~= Seq::<char>::empty());
    }
}

/// Law: the charset read from a `Content-Type` is the non-empty text right
/// after the first `charset=` of the lower-cased header, up to (not
/// including) the next `;`, space or `,`.
pub proof fn lemma_header_charset(content_type: Seq<char>)
    ensures
        charset_from_header_spec(content_type) matches Some(cs) ==> {
            let lower = lowercase(content_type);
            exists|pos: int|
                #![trigger matches_at(lower, "charset="@, pos)]
                matches_at(lower, "charset="@, pos) && cs.len() > 0 && lower.subrange(
                    pos + 8,
                    pos + 8 + cs.len(),
                ) == cs && (pos + 8 + cs.len() == lower.len() || is_charset_delim(
                    lower[pos + 8 + cs.len()],
                )) && forall|i: int| 0 <= i < cs.len() ==> !is_charset_delim(#[trigger] cs[i])
        },
{
    let lower = lowercase(content_type);
    reveal_strlit("charset=");
    lemma_find(lower, "charset="@);
    if let Some(pos) = find(lower, "charset="@) {
        let rest = lower.skip(pos + 8);
        lemma_take_until_delim(rest);
        let cs = take_until_delim(rest);
        assert(lower.subrange(pos + 8, pos + 8 + cs.len()) =~= rest.take(cs.len() as int));
        if pos + 8 + cs.len() < lower.len() {
            assert(lower[pos + 8 + cs.len()] == rest[cs.len() as int]);
        }
        assert(matches_at(lower, "charset="@, pos));
    }
}

/// Law: a body is decoded with the header's charset when `encoding_rs` knows
/// it (and the result is certain); else with the `searchUrl` charset when that
/// decodes without errors; else with the detected encoding, whose name is
/// given in lower case, uncertain when bytes were replaced or there are fewer
/// than 64 of them.
pub proof fn lemma_decode_priorities(bytes: Seq<u8>, content_type: Seq<char>, hint: Option<Seq<char>>)
    ensures
        charset_from_header_spec(content_type) matches Some(cs) ==> (label_decode(cs, bytes) matches Some(
            d,
        ) ==> decode_body_spec(bytes, content_type, hint) == (d.0, Some(cs), false)),
        (match charset_from_header_spec(content_type) {
            Some(cs) => label_decode(cs, bytes) is None,
            None => true,
        }) ==> (hint matches Some(h) ==> (label_decode(h, bytes) matches Some(d) ==> (!d.1
            ==> decode_body_spec(bytes, content_type, hint) == (d.0, Some(h), false)))),
        (match charset_from_header_spec(content_type) {
            Some(cs) => label_decode(cs, bytes) is None,
            None => true,
        }) && (match hint {
            Some(h) => match label_decode(h, bytes) {
                Some(d) => d.1,
                None => true,
            },
            None => true,
        }) ==> ({
            let det = detected_decode(bytes, bytes.len() < 1024);
            decode_body_spec(bytes, content_type, hint) == (det.0, Some(lowercase(det.1)), det.2
                || bytes.len() < 64)
        }),
{
}

// ───────────────────────────── executable ─────────────────────────────

/// A server error (5xx): transient, so the request is worth retrying.
pub fn is_transient_status(status_code: u16) -> (b: bool)
    ensures
        b == (status_code >= 500),
{
    status_code >= 500
}

/// The key/value pairs of header matches (groups 1 and 2 of each).
pub fn headers_from_matches(matches: Vec<Vec<Option<String>>>) -> (r: Vec<(String, String)>)
    ensures
        r.deep_view() == header_pairs(matches.deep_view()),
{
    let ghost mv = matches.deep_view();
    let mut out: Vec<(String, String)> = Vec::new();
    let mut i: usize = 0;
    assert(mv.take(0) =~= Seq::<Seq<Option<Seq<char>>>>::empty());
    assert(out.deep_view() =~= Seq::<(Seq<char>, Seq<char>)>::empty());
    while i < matches.len()
        invariant
            i <= matches@.len(),
            mv == matches.deep_view(),
            out.deep_view() == header_pairs(mv.take(i as int)),
        decreases matches.len() - i,
    {
        assert(mv.take(i + 1).drop_last() =~= mv.take(i as int));
        let m = &matches[i];
        assert(mv[i as int] == m.deep_view());
        if m.len() > 2 {
            match (&m[1], &m[2]) {
                (Some(k), Some(v)) => {
                    let pair = (string_of(&chars_of(k.as_str())), string_of(&chars_of(v.as_str())));
                    let ghost before = out;
                    out.push(pair);
                    proof {
                        lemma_vec_push_deep_view(before, out, pair);
                    }
                },
                _ => {},
            }
        }
        assert(out.deep_view() =~= header_pairs(mv.take(i + 1)));
        i += 1;
    }
    assert(mv.take(matches@.len() as int) =~= mv);
    out
}

/// Parse the Python-dict style header string into key-value pairs.
/// Format: `{'User-Agent': 'Mozilla/5.0'}` or `{"key": "value"}`.
/// (The pattern always compiles, so the empty answer for one that does not
/// is never given.)
pub fn parse_headers(header_str: &str) -> (r: Vec<(String, String)>)
    ensures
        r.deep_view() == parse_headers_spec(header_str@),
{
    if header_str.is_empty() {
        let r: Vec<(String, String)> = Vec::new();
        assert(r.deep_view() =~= Seq::<(Seq<char>, Seq<char>)>::empty());
        return r;
    }
    match captures_all(r#"['"]([^'"]+)['"]\s*:\s*['"]([^'"]*)['"]"#, header_str) {
        Some(matches) => headers_from_matches(matches),
        None => {
            let r: Vec<(String, String)> = Vec::new();
            assert(r.deep_view() =~= Seq::<(Seq<char>, Seq<char>)>::empty());
            r
        },
    }
}

fn take_until_delim_exec(s: &[char]) -> (r: Vec<char>)
    ensures
        r@ == take_until_delim(s@),
{
    let n = s.len();
    let mut i: usize = 0;
    assert(s@.skip(0) =~= s@);
    assert(s@.take(0) + s@ =~= s@);
    while i < n && !(s[i] == ';' || s[i] == ' ' || s[i] == ',')
        invariant
            i <= n,
            n == s@.len(),
            take_until_delim(s@) == s@.take(i as int) + take_until_delim(s@.skip(i as int)),
        decreases n - i,
    {
        assert(s@.skip(i as int).drop_first() =~= s@.skip(i + 1));
        assert(s@.take(i as int) + seq![s@[i as int]] =~= s@.take(i + 1));
        i += 1;
    }
    assert(take_until_delim(s@.skip(i as int)) =~= Seq::<char>::empty());
    let r = subvec(s, 0, i);
    assert(r@ =~= s@.take(i as int) + Seq::<char>::empty());
    r
}

/// The `charset=` value of a `Content-Type` header, lower-cased.
pub fn extract_charset_from_header(content_type: &str) -> (r: Option<String>)
    ensures
        r.deep_view() == charset_from_header_spec(content_type@),
{
    let lower = chars_of(to_lowercase(content_type).as_str());
    let key = chars_of("charset=");
    proof {
        reveal_strlit("charset=");
        lemma_find(lower@, key@);
    }
    match find_exec(&lower, &key) {
        Some(pos) => {
            let n = lower.len();
            assert(pos + 8 <= n);
            let rest = subvec(&lower, pos + 8, n);
            assert(rest@ =~= lower@.skip(pos + 8));
            let cs = take_until_delim_exec(&rest);
            if cs.len() > 0 {
                Some(string_of(&cs))
            } else {
                None
            }
        },
        None => None,
    }
}

/// What decoding with the `searchUrl` charset hint gives, kept only if clean.
pub fn hint_decode(decoded: Option<(String, bool)>, charset: &String) -> (r: Option<
    (String, Option<String>, bool),
>)
    ensures
        r.deep_view() == hint_decode_spec(decoded.deep_view(), charset@),
{
    match decoded {
        Some((text, had_errors)) => if !had_errors {
            Some((text, Some(charset.clone()), false))
        } else {
            None
        },
        None => None,
    }
}

/// The detection result: lower-cased name, uncertain when malformed or short.
pub fn detection_result(decoded: (String, String, bool), len: usize) -> (r: (
    String,
    Option<String>,
    bool,
))
    ensures
        r.deep_view() == detection_spec(decoded.deep_view(), len as nat),
{
    let (text, name, had_errors) = decoded;
    (text, Some(to_lowercase(name.as_str())), had_errors || len < 64)
}

/// Decode a response body: the `Content-Type` charset first, then the
/// `searchUrl` charset hint (if it decodes cleanly), then detection.
pub fn decode_body(bytes: &[u8], content_type: &str, url_charset: &Option<String>) -> (r: (
    String,
    Option<String>,
    bool,
))
    ensures
        r.deep_view() == decode_body_spec(bytes@, content_type@, url_charset.deep_view()),
{
    if let Some(charset_str) = extract_charset_from_header(content_type) {
        if let Some((text, _)) = decode_with_label(charset_str.as_str(), bytes) {
            return (text, Some(charset_str), false);
        }
    }
    if let Some(charset) = url_charset {
        if let Some(r) = hint_decode(decode_with_label(charset.as_str(), bytes), charset) {
            return r;
        }
    }
    let len = bytes.len();
    detection_result(detect_and_decode(bytes, len < 1024), len)
}

} // verus!
