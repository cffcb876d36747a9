//! Repair of malformed `bookSourceUrl` values.
use vstd::prelude::*;
use crate::text::{
    char_is_alphanumeric, chars_of, concat, contains, contains_exec, find, find_exec, has_white_space,
    is_alphanumeric, is_white_space, is_white_space_char, lemma_find, lemma_starts_with_concat,
    lemma_starts_with_trans, lemma_trim_edges, lemma_trim_no_edge_space, matches_at, starts_with,
    starts_with_exec, string_of, subvec, trim, trim_chars,
};

verus! {

/// Whether `u` carries an `http://` or `https://` scheme.
pub open spec fn has_scheme(u: Seq<char>) -> bool {
    starts_with(u, "http://"@) || starts_with(u, "https://"@)
}

/// Where the URL that follows an image marker starts, when `t` has the
/// shape `…图片…http(s)://…` (the marker before the first `http`, and a
/// scheme there).
pub open spec fn image_prefix_end(t: Seq<char>) -> Option<int> {
    match find(t, "http"@) {
        Some(pos) => if pos > 0 && contains(t.take(pos), "图片"@) && has_scheme(t.skip(pos)) {
            Some(pos)
        } else {
            None
        },
        None => None,
    }
}

/// `t` looks like a bare domain: a dot that is not the first character, an
/// alphanumeric first character, no white space and no full-width colon.
pub open spec fn is_bare_domain(t: Seq<char>) -> bool {
    &&& find(t, "."@) matches Some(d) && d > 0
    &&& is_alphanumeric(t[0])
    &&& !has_white_space(t)
    &&& !contains(t, "："@)
}

/// What `fix_url` returns for `raw`.
pub open spec fn fix_url_spec(raw: Seq<char>) -> Option<Seq<char>> {
    let t = trim(raw);
    if starts_with(t, "http://"@) || starts_with(t, "https://"@) {
        Some(t)
    } else if let Some(pos) = image_prefix_end(t) {
        Some(t.skip(pos))
    } else if starts_with(t, "http:"@) {
        Some("http://"@ + t.skip(5))
    } else if starts_with(t, "www."@) || starts_with(t, "m."@) {
        Some("https://"@ + t)
    } else if is_bare_domain(t) {
        Some("https://"@ + t)
    } else {
        None
    }
}

fn has_white_space_exec(s: &[char]) -> (b: bool)
    ensures
        b == has_white_space(s@),
{
    let mut i: usize = 0;
    while i < s.len()
        invariant
            i <= s@.len(),
            forall|k: int| 0 <= k < i ==> !is_white_space(#[trigger] s@[k]),
        decreases s.len() - i,
    {
        if is_white_space_char(s[i]) {
            return true;
        }
        i += 1;
    }
    false
}

/// Auto-fix a malformed `bookSourceUrl`: `Some(fixed)` if it can be
/// repaired, `None` if it is irreparably broken.
pub fn fix_url(raw: &str) -> (r: Option<String>)
    ensures
        r.deep_view() == fix_url_spec(raw@),
{
    let raw_chars = chars_of(raw);
    let t = trim_chars(&raw_chars);
    let http_slash = chars_of("http://");
    let https_slash = chars_of("https://");
    if starts_with_exec(&t, &http_slash) || starts_with_exec(&t, &https_slash) {
        return Some(string_of(&t));
    }
    let http = chars_of("http");
    let image = chars_of("图片");
    proof {
        lemma_find(t@, http@);
    }
    if let Some(pos) = find_exec(&t, &http) {
        let before = subvec(&t, 0, pos);
        assert(before@ =~= t@.take(pos as int));
        if pos > 0 && contains_exec(&before, &image) {
            let after = subvec(&t, pos, t.len());
            assert(after@ =~= t@.skip(pos as int));
            if starts_with_exec(&after, &http_slash) || starts_with_exec(&after, &https_slash) {
                return Some(string_of(&after));
            }
        }
    }
    let http_colon = chars_of("http:");
    if starts_with_exec(&t, &http_colon) {
        proof {
            reveal_strlit("http:");
        }
        let rest = subvec(&t, 5, t.len());
        let fixed = concat(&http_slash, &rest);
        assert(rest@ =~= t@.skip(5));
        return Some(string_of(&fixed));
    }
    let www = chars_of("www.");
    let m = chars_of("m.");
    if starts_with_exec(&t, &www) || starts_with_exec(&t, &m) {
        let fixed = concat(&https_slash, &t);
        return Some(string_of(&fixed));
    }
    let dot = chars_of(".");
    proof {
        lemma_find(t@, dot@);
    }
    if let Some(d) = find_exec(&t, &dot) {
        if d > 0 && char_is_alphanumeric(t[0]) && !has_white_space_exec(&t) {
            let colon = chars_of("：");
            if !contains_exec(&t, &colon) {
                let fixed = concat(&https_slash, &t);
                return Some(string_of(&fixed));
            }
        }
    }
    None
}

proof fn lemma_scheme_prefixes()
    ensures
        starts_with("http://"@, "http"@),
        starts_with("https://"@, "http"@),
        starts_with("https://"@, "https://"@),
        starts_with("http://"@, "http://"@),
        "http://"@.len() == 7,
        "https://"@.len() == 8,
        "http"@.len() == 4,
        "http:"@.len() == 5,
        "www."@.len() == 4,
        "m."@.len() == 2,
        "."@.len() == 1,
        !is_white_space("http://"@[0]),
        !is_white_space("http://"@.last()),
        !is_white_space("https://"@[0]),
{
    reveal_strlit("http://");
    reveal_strlit("https://");
    reveal_strlit("http");
    reveal_strlit("http:");
    reveal_strlit("www.");
    reveal_strlit("m.");
    reveal_strlit(".");
    assert("http://"@.subrange(0, 4) =~= "http"@);
    assert("https://"@.subrange(0, 4) =~= "http"@);
    assert("https://"@.subrange(0, 8) =~= "https://"@);
    assert("http://"@.subrange(0, 7) =~= "http://"@);
}

/// Law: whatever `fix_url` returns carries an `http://` or `https://` scheme.
pub proof fn lemma_fixed_url_has_scheme(raw: Seq<char>)
    ensures
        fix_url_spec(raw) matches Some(u) ==> has_scheme(u),
{
    lemma_scheme_prefixes();
    let t = trim(raw);
    if starts_with(t, "http://"@) || starts_with(t, "https://"@) {
    } else if let Some(pos) = image_prefix_end(t) {
    } else if starts_with(t, "http:"@) {
        lemma_starts_with_concat("http://"@, t.skip(5), "http://"@);
    } else {
        lemma_starts_with_concat("https://"@, t, "https://"@);
    }
}

/// Law: whatever `fix_url` returns begins with `http`.
pub proof fn lemma_fixed_url_starts_with_http(raw: Seq<char>)
    ensures
        fix_url_spec(raw) matches Some(u) ==> starts_with(u, "http"@),
{
    lemma_scheme_prefixes();
    lemma_fixed_url_has_scheme(raw);
    if let Some(u) = fix_url_spec(raw) {
        if starts_with(u, "http://"@) {
            lemma_starts_with_trans(u, "http://"@, "http"@);
        } else {
            lemma_starts_with_trans(u, "https://"@, "http"@);
        }
    }
}

/// Law: a fixed URL is its own fix: fixing it again changes nothing.
pub proof fn lemma_fix_url_fixed_point(raw: Seq<char>, u: Seq<char>)
    requires
        fix_url_spec(raw) == Some(u),
    ensures
        fix_url_spec(u) == Some(u),
{
    lemma_scheme_prefixes();
    lemma_fixed_url_starts_with_http(raw);
    lemma_fixed_url_has_scheme(raw);
    let t = trim(raw);
    lemma_trim_edges(raw);
    lemma_find(t, "http"@);
    reveal_strlit("http");
    assert(u.subrange(0, 4) == "http"@);
    assert(u[0] == u.subrange(0, 4)[0]);
    assert(!is_white_space(u[0]));
    assert(t.len() > 0);
    if starts_with(t, "http://"@) || starts_with(t, "https://"@) {
    } else if let Some(pos) = image_prefix_end(t) {
        assert(u.last() == t.last());
    } else if starts_with(t, "http:"@) {
        reveal_strlit("http:");
        if t.skip(5).len() > 0 {
            assert(u.last() == t.last());
        } else {
            assert(u.last() == "http://"@.last());
        }
    } else {
        assert(u.last() == t.last());
    }
    lemma_trim_no_edge_space(u);
}

} // verus!
