//! Legado rule DSL lexer & parser.
//!
//! Tokenizes a rule string like `class.item@tag.li.0@text` into a chain
//! of locator, index, and extractor tokens.
use vstd::prelude::*;
use vstd::string::StrSliceExecFns;
use crate::text::{
    all_ascii_digits, chars_of, contains, decimal_value, eq_exec, find, find_exec, is_ascii_digit,
    keep_nonempty, lemma_chars_deep_view, lemma_find, lemma_push_deep_view,
    lemma_vec_concat_deep_view, lemma_vec_push_deep_view, matches_at, parse_decimal, split_char,
    split_char_exec, starts_with, starts_with_exec, string_of, strings_of, subvec, trim,
    trim_chars, trim_start, trim_start_chars,
};

verus! {

#[derive(Debug, Clone, PartialEq)]
pub enum RuleToken {
    // ── Locators ──
    /// `class.name`
    CssClass(String),
    /// `id.name`
    CssId(String),
    /// `tag.name`
    TagName(String),
    /// `@css:selector`
    CssOverride(String),
    /// `$.path` or `@JSon:path`
    JsonPath(String),
    /// `data.path`
    DataPath(Vec<String>),
    /// `<js>code</js>`
    JsBlock(String),
    // ── Modifiers ──
    /// `.n` → take index n
    Index(usize),
    /// `!n` → exclude index n
    ExcludeIndex(usize),
    // ── Extractors ──
    /// `@text`
    Text,
    /// `@textNodes` — direct text nodes only
    TextNodes,
    /// `@href`
    Href,
    /// `@html` — inner HTML
    Html,
    /// `@src`
    Src,
    // ── Combinators ──
    /// `||` — fallback separator
    Fallback,
    /// `##pattern##replacement`
    RegexReplace { pattern: String, replacement: String },
    // ── Special ──
    /// Bare element name like `@a`, `@li` — shorthand tag selector
    TagShort(String),
    /// `@js:code`
    JsTransform(String),
    /// Unknown — forward compat
    Unknown(String),
}

/// The mathematical content of a [`RuleToken`]: strings as character sequences.
pub enum TokenView {
    CssClass(Seq<char>),
    CssId(Seq<char>),
    TagName(Seq<char>),
    CssOverride(Seq<char>),
    JsonPath(Seq<char>),
    DataPath(Seq<Seq<char>>),
    JsBlock(Seq<char>),
    Index(usize),
    ExcludeIndex(usize),
    Text,
    TextNodes,
    Href,
    Html,
    Src,
    Fallback,
    RegexReplace(Seq<char>, Seq<char>),
    TagShort(Seq<char>),
    JsTransform(Seq<char>),
    Unknown(Seq<char>),
}

impl View for RuleToken {
    type V = TokenView;

    open spec fn view(&self) -> TokenView {
        match self {
            RuleToken::CssClass(s) => TokenView::CssClass(s@),
            RuleToken::CssId(s) => TokenView::CssId(s@),
            RuleToken::TagName(s) => TokenView::TagName(s@),
            RuleToken::CssOverride(s) => TokenView::CssOverride(s@),
            RuleToken::JsonPath(s) => TokenView::JsonPath(s@),
            RuleToken::DataPath(v) => TokenView::DataPath(v.deep_view()),
            RuleToken::JsBlock(s) => TokenView::JsBlock(s@),
            RuleToken::Index(n) => TokenView::Index(*n),
            RuleToken::ExcludeIndex(n) => TokenView::ExcludeIndex(*n),
            RuleToken::Text => TokenView::Text,
            RuleToken::TextNodes => TokenView::TextNodes,
            RuleToken::Href => TokenView::Href,
            RuleToken::Html => TokenView::Html,
            RuleToken::Src => TokenView::Src,
            RuleToken::Fallback => TokenView::Fallback,
            RuleToken::RegexReplace { pattern, replacement } => TokenView::RegexReplace(
                pattern@,
                replacement@,
            ),
            RuleToken::TagShort(s) => TokenView::TagShort(s@),
            RuleToken::JsTransform(s) => TokenView::JsTransform(s@),
            RuleToken::Unknown(s) => TokenView::Unknown(s@),
        }
    }
}

impl DeepView for RuleToken {
    type V = TokenView;

    open spec fn deep_view(&self) -> TokenView {
        self@
    }
}

// ───────────────────────────── specifications ─────────────────────────────

/// The non-empty trimmed pieces of `s` between `||` separators.
pub open spec fn split_fallback_spec(s: Seq<char>) -> Seq<Seq<char>>
    decreases s.len(),
{
    match find(s, "||"@) {
        Some(i) => {
            proof {
                lemma_find(s, "||"@);
                reveal_strlit("||");
            }
            keep_nonempty(trim(s.take(i))) + split_fallback_spec(s.skip(i + 2))
        },
        None => keep_nonempty(trim(s)),
    }
}

/// Index of the first character of the run of ASCII digits that ends at `j`.
pub open spec fn digit_run_start(s: Seq<char>, j: int) -> int
    decreases j,
{
    if 0 < j <= s.len() && is_ascii_digit(s[j - 1]) {
        digit_run_start(s, j - 1)
    } else {
        j
    }
}

/// `item.0` / `item!0` → (`item`, `Some(0)`); anything else → (`s`, `None`).
pub open spec fn split_index_spec(s: Seq<char>) -> (Seq<char>, Option<usize>) {
    if s.len() < 3 {
        (s, None)
    } else {
        let d = digit_run_start(s, s.len() as int);
        if 0 < d < s.len() && (s[d - 1] == '.' || s[d - 1] == '!') && decimal_value(s.skip(d))
            <= usize::MAX {
            (s.take(d - 1), Some(decimal_value(s.skip(d)) as usize))
        } else {
            (s, None)
        }
    }
}

pub open spec fn parse_locator_spec(s: Seq<char>) -> TokenView {
    if starts_with(s, "class."@) {
        TokenView::CssClass(s.skip(6))
    } else if starts_with(s, "id."@) {
        TokenView::CssId(s.skip(3))
    } else if starts_with(s, "tag."@) {
        TokenView::TagName(s.skip(4))
    } else if starts_with(s, "$."@) || starts_with(s, "$["@) {
        TokenView::JsonPath(s)
    } else if starts_with(s, "data."@) {
        TokenView::DataPath(split_char(s.skip(5), '.'))
    } else {
        TokenView::Unknown(s)
    }
}

pub open spec fn parse_annotation_spec(s: Seq<char>) -> TokenView {
    if s == "text"@ {
        TokenView::Text
    } else if s == "textNodes"@ {
        TokenView::TextNodes
    } else if s == "href"@ {
        TokenView::Href
    } else if s == "html"@ {
        TokenView::Html
    } else if s == "src"@ {
        TokenView::Src
    } else if starts_with(s, "css:"@) {
        TokenView::CssOverride(s.skip(4))
    } else if starts_with(s, "JSon:"@) {
        TokenView::JsonPath(s.skip(5))
    } else if starts_with(s, "tag."@) {
        TokenView::TagName(s.skip(4))
    } else if starts_with(s, "js:"@) {
        TokenView::JsTransform(s.skip(3))
    } else {
        TokenView::TagShort(s)
    }
}

/// Tokens of one `@`-separated part: a locator (first part) or an
/// annotation (later parts), followed by its index if it has one: `.n`
/// takes index `n`, `!n` excludes it.
pub open spec fn part_tokens(part: Seq<char>, is_first: bool) -> Seq<TokenView> {
    let p = trim(part);
    if p.len() == 0 {
        seq![]
    } else {
        let (base, idx) = split_index_spec(p);
        let head = if is_first {
            parse_locator_spec(base)
        } else {
            parse_annotation_spec(base)
        };
        match idx {
            Some(n) => seq![
                head,
                if p[base.len() as int] == '!' {
                    TokenView::ExcludeIndex(n)
                } else {
                    TokenView::Index(n)
                },
            ],
            None => seq![head],
        }
    }
}

pub open spec fn parts_tokens(parts: Seq<Seq<char>>) -> Seq<TokenView>
    decreases parts.len(),
{
    if parts.len() == 0 {
        seq![]
    } else {
        parts_tokens(parts.drop_last()) + part_tokens(parts.last(), parts.len() == 1)
    }
}

/// Tokens of an `@`-chain such as `class.item.0@tag.a@href`.
pub open spec fn at_chain_spec(s: Seq<char>) -> Seq<TokenView> {
    let t = trim(s);
    if t.len() == 0 {
        seq![]
    } else {
        parts_tokens(split_char(t, '@'))
    }
}

/// `rule##pattern##replacement` → tokens of `rule` then the replacement.
pub open spec fn regex_replace_spec(s: Seq<char>) -> Option<Seq<TokenView>> {
    match find(s, "##"@) {
        None => None,
        Some(first) => {
            let after = s.skip(first + 2);
            match find(after, "##"@) {
                None => None,
                Some(second) => Some(
                    at_chain_spec(s.take(first)) + seq![
                        TokenView::RegexReplace(after.take(second), after.skip(second + 2)),
                    ],
                ),
            }
        },
    }
}

pub open spec fn segment_tokens(seg: Seq<char>) -> Seq<TokenView> {
    match regex_replace_spec(seg) {
        Some(ts) => ts,
        None => at_chain_spec(seg),
    }
}

/// Segment tokens joined by `Fallback`.
pub open spec fn segments_tokens(segs: Seq<Seq<char>>) -> Seq<TokenView>
    decreases segs.len(),
{
    if segs.len() == 0 {
        seq![]
    } else if segs.len() == 1 {
        segment_tokens(segs[0])
    } else {
        segments_tokens(segs.drop_last()) + seq![TokenView::Fallback] + segment_tokens(segs.last())
    }
}

/// The part of a rule that is split at `||`: the text after a leading
/// `<js>…</js>` block, or the whole rule.
pub open spec fn fallback_source(rule: Seq<char>) -> Seq<char> {
    let s = trim_start(rule);
    if starts_with(s, "<js>"@) {
        match find(s, "</js>"@) {
            Some(end) => trim(s.skip(end + 5)),
            None => seq![],
        }
    } else {
        rule
    }
}

/// The rules `tokenize` accepts: the `||`-split part holds no `|||`
/// (overlapping separators make the byte slicing of the split fail).
pub open spec fn tokenize_accepts(rule: Seq<char>) -> bool {
    !contains(fallback_source(rule), "|||"@)
}

pub open spec fn tokenize_spec(rule: Seq<char>) -> Seq<TokenView> {
    if rule.len() == 0 {
        seq![]
    } else {
        let s = trim_start(rule);
        if starts_with(s, "<js>"@) {
            match find(s, "</js>"@) {
                Some(end) => {
                    let block = TokenView::JsBlock(s.subrange(4, end));
                    let after = trim(s.skip(end + 5));
                    if after.len() == 0 {
                        seq![block]
                    } else {
                        seq![block] + segments_tokens(split_fallback_spec(after))
                    }
                },
                None => seq![TokenView::JsBlock(s.skip(4))],
            }
        } else {
            segments_tokens(split_fallback_spec(rule))
        }
    }
}

// ───────────────────────────── laws ─────────────────────────────

proof fn lemma_digit_run_start(s: Seq<char>, j: int, start: int)
    requires
        0 <= start <= j <= s.len(),
        forall|k: int| start <= k < j ==> is_ascii_digit(#[trigger] s[k]),
        start == 0 || !is_ascii_digit(s[start - 1]),
    ensures
        digit_run_start(s, j) == start,
    decreases j,
{
    if j > start {
        lemma_digit_run_start(s, j - 1, start);
    }
}

/// Law: an index split off a name is given back: for a non-empty base, a
/// `.` or `!` and a run of digits, `split_index` returns the base and the
/// digits' value (when it fits in `usize`).
pub proof fn lemma_split_index_round_trip(base: Seq<char>, sep: char, digits: Seq<char>)
    requires
        base.len() > 0,
        sep == '.' || sep == '!',
        digits.len() > 0,
        all_ascii_digits(digits),
        decimal_value(digits) <= usize::MAX,
    ensures
        split_index_spec(base + seq![sep] + digits) == (base, Some(decimal_value(digits) as usize)),
{
    let s = base + seq![sep] + digits;
    let start: int = base.len() as int + 1;
    assert forall|k: int| start <= k < s.len() implies is_ascii_digit(#[trigger] s[k]) by {
        assert(s[k] == digits[k - start]);
    }
    lemma_digit_run_start(s, s.len() as int, start);
    assert(s.skip(start) =~= digits);
    assert(s.take(start - 1) =~= base);
}

/// `prefix + p` starts with `prefix`, and `p` is what follows it.
proof fn lemma_prefix_parts(prefix: Seq<char>, p: Seq<char>)
    ensures
        starts_with(prefix + p, prefix),
        (prefix + p).skip(prefix.len() as int) == p,
{
    assert((prefix + p).subrange(0, prefix.len() as int) =~= prefix);
    assert((prefix + p).skip(prefix.len() as int) =~= p);
}

/// Law: an annotation's prefix names its kind and is not part of its
/// argument: `@JSon:p` is the JSON path `p`, `@css:p` the CSS selector `p`,
/// `@tag.p` the tag `p`, `@js:p` the script `p`.
pub proof fn lemma_annotation_prefixes(p: Seq<char>)
    ensures
        parse_annotation_spec("JSon:"@ + p) == TokenView::JsonPath(p),
        parse_annotation_spec("css:"@ + p) == TokenView::CssOverride(p),
        parse_annotation_spec("tag."@ + p) == TokenView::TagName(p),
        parse_annotation_spec("js:"@ + p) == TokenView::JsTransform(p),
{
    reveal_strlit("JSon:");
    reveal_strlit("css:");
    reveal_strlit("tag.");
    reveal_strlit("js:");
    reveal_strlit("text");
    reveal_strlit("textNodes");
    reveal_strlit("href");
    reveal_strlit("html");
    reveal_strlit("src");
    lemma_prefix_parts("JSon:"@, p);
    lemma_prefix_parts("css:"@, p);
    lemma_prefix_parts("tag."@, p);
    lemma_prefix_parts("js:"@, p);
    let a = "JSon:"@ + p;
    let b = "css:"@ + p;
    let c = "tag."@ + p;
    let d = "js:"@ + p;
    assert(a[0] == 'J');
    assert(b[0] == 'c' && b[1] == 's');
    assert(c[0] == 't' && c[1] == 'a');
    assert(d[0] == 'j');
    assert(a != "text"@ && a != "textNodes"@ && a != "href"@ && a != "html"@ && a != "src"@);
    assert(b != "text"@ && b != "textNodes"@ && b != "href"@ && b != "html"@ && b != "src"@);
    assert(c != "text"@ && c != "textNodes"@ && c != "href"@ && c != "html"@ && c != "src"@);
    assert(d != "text"@ && d != "textNodes"@ && d != "href"@ && d != "html"@ && d != "src"@);
    assert(!starts_with(a, "css:"@)) by {
        assert(a.subrange(0, 4)[0] == 'J');
    }
    assert(!starts_with(c, "css:"@) && !starts_with(c, "JSon:"@)) by {
        assert(c.subrange(0, 4)[0] == 't');
        if c.len() >= 5 {
            assert(c.subrange(0, 5)[0] == 't');
        }
    }
    assert(!starts_with(d, "css:"@) && !starts_with(d, "JSon:"@) && !starts_with(d, "tag."@)) by {
        if d.len() >= 4 {
            assert(d.subrange(0, 4)[0] == 'j');
        }
        if d.len() >= 5 {
            assert(d.subrange(0, 5)[0] == 'j');
        }
    }
}

/// Law: a locator's prefix names its kind: `class.p` is the class `p`,
/// `id.p` the id `p`, `tag.p` the tag `p`.
pub proof fn lemma_locator_prefixes(p: Seq<char>)
    ensures
        parse_locator_spec("class."@ + p) == TokenView::CssClass(p),
        parse_locator_spec("id."@ + p) == TokenView::CssId(p),
        parse_locator_spec("tag."@ + p) == TokenView::TagName(p),
{
    reveal_strlit("class.");
    reveal_strlit("id.");
    reveal_strlit("tag.");
    lemma_prefix_parts("class."@, p);
    lemma_prefix_parts("id."@, p);
    lemma_prefix_parts("tag."@, p);
    let b = "id."@ + p;
    let c = "tag."@ + p;
    assert(!starts_with(b, "class."@)) by {
        if b.len() >= 6 {
            assert(b.subrange(0, 6)[0] == 'i');
        }
    }
    assert(!starts_with(c, "class."@) && !starts_with(c, "id."@)) by {
        if c.len() >= 6 {
            assert(c.subrange(0, 6)[0] == 't');
        }
        assert(c.subrange(0, 3)[0] == 't');
    }
}

// ───────────────────────────── executable ─────────────────────────────

/// Split a rule at `||` boundaries into its non-empty trimmed segments.
fn split_fallback(s: &[char]) -> (parts: Vec<Vec<char>>)
    ensures
        parts.deep_view() == split_fallback_spec(s@),
{
    let sep = chars_of("||");
    proof {
        reveal_strlit("||");
    }
    let mut parts: Vec<Vec<char>> = Vec::new();
    let mut rest = subvec(s, 0, s.len());
    assert(s@.subrange(0, s@.len() as int) =~= s@);
    loop
        invariant
            sep@ == "||"@,
            sep@.len() == 2,
            split_fallback_spec(s@) == parts.deep_view() + split_fallback_spec(rest@),
        decreases rest@.len(),
    {
        proof {
            lemma_find(rest@, sep@);
        }
        let rl = rest.len();
        let ghost old_parts = parts.deep_view();
        let ghost old_vec = parts;
        match find_exec(&rest, &sep) {
            Some(i) => {
                let head = subvec(&rest, 0, i);
                assert(rest@.take(i as int) =~= head@);
                let piece = trim_chars(&head);
                let tail = subvec(&rest, i + 2, rl);
                assert(rest@.skip(i + 2) =~= tail@);
                if piece.len() > 0 {
                    let ghost pv = piece;
                    parts.push(piece);
                    proof {
                        lemma_push_deep_view(old_vec, parts, pv);
                    }
                }
                assert(old_parts + keep_nonempty(trim(head@)) =~= parts.deep_view());
                assert(old_parts + (keep_nonempty(trim(head@)) + split_fallback_spec(tail@))
                    =~= parts.deep_view() + split_fallback_spec(tail@));
                rest = tail;
            },
            None => {
                let piece = trim_chars(&rest);
                if piece.len() > 0 {
                    let ghost pv = piece;
                    parts.push(piece);
                    proof {
                        lemma_push_deep_view(old_vec, parts, pv);
                    }
                }
                assert(old_parts + keep_nonempty(trim(rest@)) =~= parts.deep_view());
                return parts;
            },
        }
    }
}

fn is_ascii_digit_exec(c: char) -> (b: bool)
    ensures
        b == is_ascii_digit(c),
{
    '0' <= c && c <= '9'
}

/// Length of the base of `split_index_spec(s)` (always a prefix of `s`), and the index.
fn split_index_chars(s: &[char]) -> (r: (usize, Option<usize>))
    ensures
        r.0 <= s@.len(),
        r.1 is Some ==> r.0 < s@.len(),
        split_index_spec(s@) == (s@.take(r.0 as int), r.1),
{
    let n = s.len();
    assert(s@.take(n as int) =~= s@);
    if n < 3 {
        return (n, None);
    }
    let mut d: usize = n;
    while d > 0 && is_ascii_digit_exec(s[d - 1])
        invariant
            d <= n,
            n == s@.len(),
            digit_run_start(s@, n as int) == digit_run_start(s@, d as int),
            forall|k: int| d <= k < n ==> is_ascii_digit(#[trigger] s@[k]),
        decreases d,
    {
        d -= 1;
    }
    assert(digit_run_start(s@, d as int) == d);
    if d > 0 && d < n && (s[d - 1] == '.' || s[d - 1] == '!') {
        let digits = subvec(s, d, n);
        assert(digits@ =~= s@.skip(d as int));
        assert(all_ascii_digits(digits@));
        match parse_decimal(&digits) {
            Some(num) => {
                return (d - 1, Some(num));
            },
            None => {},
        }
    }
    (n, None)
}

/// Split a name like "item.0" into ("item", Some(0)).
pub fn split_index(s: &str) -> (r: (&str, Option<usize>))
    ensures
        split_index_spec(s@) == (r.0@, r.1),
{
    let cs = chars_of(s);
    let (k, idx) = split_index_chars(&cs);
    (s.substring_char(0, k), idx)
}

fn parse_locator(s: &[char]) -> (t: RuleToken)
    ensures
        t@ == parse_locator_spec(s@),
{
    let n = s.len();
    if starts_with_exec(s, &chars_of("class.")) {
        proof {
            reveal_strlit("class.");
        }
        let rest = subvec(s, 6, n);
        assert(rest@ =~= s@.skip(6));
        RuleToken::CssClass(string_of(&rest))
    } else if starts_with_exec(s, &chars_of("id.")) {
        proof {
            reveal_strlit("id.");
        }
        let rest = subvec(s, 3, n);
        assert(rest@ =~= s@.skip(3));
        RuleToken::CssId(string_of(&rest))
    } else if starts_with_exec(s, &chars_of("tag.")) {
        proof {
            reveal_strlit("tag.");
        }
        let rest = subvec(s, 4, n);
        assert(rest@ =~= s@.skip(4));
        RuleToken::TagName(string_of(&rest))
    } else if starts_with_exec(s, &chars_of("$.")) || starts_with_exec(s, &chars_of("$[")) {
        RuleToken::JsonPath(string_of(s))
    } else if starts_with_exec(s, &chars_of("data.")) {
        proof {
            reveal_strlit("data.");
        }
        let rest = subvec(s, 5, n);
        assert(rest@ =~= s@.skip(5));
        let parts = split_char_exec(&rest, '.');
        RuleToken::DataPath(strings_of(&parts))
    } else {
        RuleToken::Unknown(string_of(s))
    }
}

fn annotation_token(s: &[char]) -> (t: RuleToken)
    ensures
        t@ == parse_annotation_spec(s@),
{
    let n = s.len();
    if eq_exec(s, &chars_of("text")) {
        RuleToken::Text
    } else if eq_exec(s, &chars_of("textNodes")) {
        RuleToken::TextNodes
    } else if eq_exec(s, &chars_of("href")) {
        RuleToken::Href
    } else if eq_exec(s, &chars_of("html")) {
        RuleToken::Html
    } else if eq_exec(s, &chars_of("src")) {
        RuleToken::Src
    } else if starts_with_exec(s, &chars_of("css:")) {
        proof {
            reveal_strlit("css:");
        }
        let rest = subvec(s, 4, n);
        assert(rest@ =~= s@.skip(4));
        RuleToken::CssOverride(string_of(&rest))
    } else if starts_with_exec(s, &chars_of("JSon:")) {
        proof {
            reveal_strlit("JSon:");
        }
        let rest = subvec(s, 5, n);
        assert(rest@ =~= s@.skip(5));
        RuleToken::JsonPath(string_of(&rest))
    } else if starts_with_exec(s, &chars_of("tag.")) {
        proof {
            reveal_strlit("tag.");
        }
        let rest = subvec(s, 4, n);
        assert(rest@ =~= s@.skip(4));
        RuleToken::TagName(string_of(&rest))
    } else if starts_with_exec(s, &chars_of("js:")) {
        proof {
            reveal_strlit("js:");
        }
        let rest = subvec(s, 3, n);
        assert(rest@ =~= s@.skip(3));
        RuleToken::JsTransform(string_of(&rest))
    } else {
        RuleToken::TagShort(string_of(s))
    }
}

/// The token of an `@`-annotation such as `text`, `href`, `css:…` or a bare tag.
pub fn parse_annotation(s: &str) -> (t: RuleToken)
    ensures
        t@ == parse_annotation_spec(s@),
{
    annotation_token(&chars_of(s))
}

fn part_tokens_exec(part: &[char], is_first: bool) -> (ts: Vec<RuleToken>)
    ensures
        ts.deep_view() == part_tokens(part@, is_first),
{
    let p = trim_chars(part);
    if p.len() == 0 {
        let ts: Vec<RuleToken> = Vec::new();
        assert(ts.deep_view() =~= Seq::<TokenView>::empty());
        return ts;
    }
    let (k, idx) = split_index_chars(&p);
    let base = subvec(&p, 0, k);
    let head = if is_first {
        parse_locator(&base)
    } else {
        annotation_token(&base)
    };
    let ts = match idx {
        Some(n) => {
            let modifier = if p[k] == '!' {
                RuleToken::ExcludeIndex(n)
            } else {
                RuleToken::Index(n)
            };
            vec![head, modifier]
        },
        None => vec![head],
    };
    assert(ts.deep_view() =~= part_tokens(part@, is_first));
    ts
}

/// Tokenize a segment by `@` separators into a chain.
fn tokenize_at_chain(s: &[char]) -> (tokens: Vec<RuleToken>)
    ensures
        tokens.deep_view() == at_chain_spec(s@),
{
    let t = trim_chars(s);
    let mut tokens: Vec<RuleToken> = Vec::new();
    if t.len() == 0 {
        assert(tokens.deep_view() =~= Seq::<TokenView>::empty());
        return tokens;
    }
    let parts = split_char_exec(&t, '@');
    let ghost pv = parts.deep_view();
    let mut i: usize = 0;
    assert(pv.take(0) =~= Seq::<Seq<char>>::empty());
    assert(tokens.deep_view() =~= Seq::<TokenView>::empty());
    while i < parts.len()
        invariant
            i <= parts@.len(),
            pv == parts.deep_view(),
            pv == split_char(t@, '@'),
            tokens.deep_view() == parts_tokens(pv.take(i as int)),
        decreases parts.len() - i,
    {
        let mut pt = part_tokens_exec(&parts[i], i == 0);
        proof {
            lemma_chars_deep_view(parts@[i as int]);
            assert(pv.take(i + 1).drop_last() =~= pv.take(i as int));
        }
        let ghost old_tokens = tokens;
        let ghost old_pt = pt;
        tokens.append(&mut pt);
        proof {
            lemma_vec_concat_deep_view(old_tokens, old_pt, tokens);
        }
        i += 1;
    }
    assert(pv.take(parts@.len() as int) =~= pv);
    tokens
}

/// Try to parse a segment as `rule##pattern##replacement`.
fn parse_regex_replace(s: &[char]) -> (r: Option<Vec<RuleToken>>)
    ensures
        r.deep_view() == regex_replace_spec(s@),
{
    let hash2 = chars_of("##");
    proof {
        reveal_strlit("##");
        lemma_find(s@, hash2@);
    }
    let n = s.len();
    let first = match find_exec(s, &hash2) {
        Some(f) => f,
        None => {
            return None;
        },
    };
    let after = subvec(s, first + 2, n);
    assert(after@ =~= s@.skip(first + 2));
    proof {
        lemma_find(after@, hash2@);
    }
    let an = after.len();
    let second = match find_exec(&after, &hash2) {
        Some(k) => k,
        None => {
            return None;
        },
    };
    let rule_part = subvec(s, 0, first);
    assert(rule_part@ =~= s@.take(first as int));
    let pattern = subvec(&after, 0, second);
    assert(pattern@ =~= after@.take(second as int));
    let replacement = subvec(&after, second + 2, an);
    assert(replacement@ =~= after@.skip(second + 2));
    let mut tokens = tokenize_at_chain(&rule_part);
    let tok = RuleToken::RegexReplace {
        pattern: string_of(&pattern),
        replacement: string_of(&replacement),
    };
    let ghost old_tokens = tokens;
    tokens.push(tok);
    proof {
        lemma_vec_push_deep_view(old_tokens, tokens, tok);
    }
    Some(tokens)
}

fn segment_tokens_exec(seg: &[char]) -> (ts: Vec<RuleToken>)
    ensures
        ts.deep_view() == segment_tokens(seg@),
{
    match parse_regex_replace(seg) {
        Some(ts) => ts,
        None => tokenize_at_chain(seg),
    }
}

/// Appends the tokens of the `||`-separated segments of `src` to `tokens`.
fn push_segments(tokens: &mut Vec<RuleToken>, src: &[char])
    ensures
        final(tokens).deep_view() == old(tokens).deep_view() + segments_tokens(
            split_fallback_spec(src@),
        ),
{
    let segs = split_fallback(src);
    let ghost sv = segs.deep_view();
    let ghost base = tokens.deep_view();
    let mut i: usize = 0;
    assert(sv.take(0) =~= Seq::<Seq<char>>::empty());
    assert(base + segments_tokens(sv.take(0)) =~= base);
    while i < segs.len()
        invariant
            i <= segs@.len(),
            sv == segs.deep_view(),
            tokens.deep_view() == base + segments_tokens(sv.take(i as int)),
        decreases segs.len() - i,
    {
        proof {
            lemma_chars_deep_view(segs@[i as int]);
            assert(sv.take(i + 1).drop_last() =~= sv.take(i as int));
        }
        if i > 0 {
            let ghost old_tokens = *tokens;
            tokens.push(RuleToken::Fallback);
            proof {
                lemma_vec_push_deep_view(old_tokens, *tokens, RuleToken::Fallback);
            }
        }
        let mut st = segment_tokens_exec(&segs[i]);
        let ghost before = *tokens;
        let ghost stv = st;
        tokens.append(&mut st);
        proof {
            lemma_vec_concat_deep_view(before, stv, *tokens);
            if i == 0 {
                assert(tokens.deep_view() =~= base + segments_tokens(sv.take(i + 1)));
            } else {
                assert(tokens.deep_view() =~= base + segments_tokens(sv.take(i + 1)));
            }
        }
        i += 1;
    }
    assert(sv.take(segs@.len() as int) =~= sv);
}

proof fn lemma_js_close_after_open(s: Seq<char>)
    requires
        starts_with(s, "<js>"@),
    ensures
        forall|j: int| 0 <= j < 4 ==> !matches_at(s, "</js>"@, j),
{
    reveal_strlit("<js>");
    reveal_strlit("</js>");
    let pre = s.subrange(0, 4);
    assert(pre == "<js>"@);
    assert(pre[1] == 'j' && pre[2] == 's' && pre[3] == '>');
    assert(pre[1] == s[1] && pre[2] == s[2] && pre[3] == s[3]);
    assert forall|j: int| 0 <= j < 4 implies !matches_at(s, "</js>"@, j) by {
        if matches_at(s, "</js>"@, j) {
            assert(s.subrange(j, j + 5)[0] == s[j]);
            assert(s.subrange(j, j + 5)[1] == s[j + 1]);
        }
    }
}

/// Split a rule string at `||` boundaries, then tokenize each segment.
pub fn tokenize(rule: &str) -> (tokens: Vec<RuleToken>)
    requires
        tokenize_accepts(rule@),
    ensures
        tokens.deep_view() == tokenize_spec(rule@),
{
    let r = chars_of(rule);
    let mut tokens: Vec<RuleToken> = Vec::new();
    if r.len() == 0 {
        assert(tokens.deep_view() =~= Seq::<TokenView>::empty());
        return tokens;
    }
    let s = trim_start_chars(&r);
    let n = s.len();
    if starts_with_exec(&s, &chars_of("<js>")) {
        let close = chars_of("</js>");
        proof {
            reveal_strlit("<js>");
            reveal_strlit("</js>");
            lemma_find(s@, close@);
            lemma_js_close_after_open(s@);
        }
        match find_exec(&s, &close) {
            Some(end) => {
                let code = subvec(&s, 4, end);
                let tok = RuleToken::JsBlock(string_of(&code));
                tokens.push(tok);
                let rest = subvec(&s, end + 5, n);
                assert(rest@ =~= s@.skip(end + 5));
                let after = trim_chars(&rest);
                assert(tokens.deep_view() =~= seq![tok@]);
                if after.len() == 0 {
                    return tokens;
                }
                push_segments(&mut tokens, &after);
                tokens
            },
            None => {
                let code = subvec(&s, 4, n);
                assert(code@ =~= s@.skip(4));
                let tok = RuleToken::JsBlock(string_of(&code));
                tokens.push(tok);
                assert(tokens.deep_view() =~= seq![tok@]);
                tokens
            },
        }
    } else {
        assert(tokens.deep_view() =~= Seq::<TokenView>::empty());
        push_segments(&mut tokens, &r);
        assert(tokens.deep_view() =~= tokenize_spec(rule@));
        tokens
    }
}

/// Whether `tokenize` accepts `rule` (see [`tokenize_accepts`]).
pub fn accepts_rule(rule: &str) -> (b: bool)
    ensures
        b == tokenize_accepts(rule@),
{
    let r = chars_of(rule);
    let s = trim_start_chars(&r);
    let n = s.len();
    let triple = chars_of("|||");
    if starts_with_exec(&s, &chars_of("<js>")) {
        let close = chars_of("</js>");
        proof {
            lemma_find(s@, close@);
            reveal_strlit("</js>");
        }
        match find_exec(&s, &close) {
            Some(end) => {
                let rest = subvec(&s, end + 5, n);
                assert(rest@ =~= s@.skip(end + 5));
                !crate::text::contains_exec(&trim_chars(&rest), &triple)
            },
            None => {
                let empty: Vec<char> = Vec::new();
                assert(empty@ =~= Seq::<char>::empty());
                !crate::text::contains_exec(&empty, &triple)
            },
        }
    } else {
        !crate::text::contains_exec(&r, &triple)
    }
}

// ── Public convenience ──

/// Same as [`tokenize`].
pub fn parse_rule(rule: &str) -> (tokens: Vec<RuleToken>)
    requires
        tokenize_accepts(rule@),
    ensures
        tokens.deep_view() == tokenize_spec(rule@),
{
    tokenize(rule)
}

/// `"item.0"` → `Some(("item", 0))`; `None` when `s` carries no index.
pub fn extract_index(s: &str) -> (r: Option<(String, usize)>)
    ensures
        match split_index_spec(s@) {
            (base, Some(n)) => r matches Some((b, m)) && b@ == base && m == n,
            (_, None) => r is None,
        },
{
    let (base, idx) = split_index(s);
    match idx {
        Some(n) => Some((string_of(&chars_of(base)), n)),
        None => None,
    }
}

} // verus!
