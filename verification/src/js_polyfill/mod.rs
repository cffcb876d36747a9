//! Classification of JavaScript search URLs by how much JavaScript they need.
pub mod runner;

use vstd::prelude::*;
use crate::text::{chars_of, contains, contains_exec, starts_with, starts_with_exec, subvec};

verus! {

#[derive(Debug, Clone, Copy, PartialEq, Eq, Structural)]
pub enum JsLevel {
    /// Simple concatenation — Rust-side regex handles it
    L1,
    /// Function/branch logic — needs node
    L2,
    /// Uses Java APIs — node + polyfill
    L3Polyfillable,
    /// Uses startBrowserAwait — cannot test
    L3Unrecoverable,
    /// Template `{{key}}` — no JS needed
    Template,
    /// Plain URL — no JS needed
    PlainUrl,
}

/// Number of occurrences of `c` in `s`.
pub open spec fn count_char(s: Seq<char>, c: char) -> nat
    decreases s.len(),
{
    if s.len() == 0 {
        0
    } else {
        count_char(s.drop_last(), c) + if s.last() == c {
            1nat
        } else {
            0nat
        }
    }
}

pub open spec fn classify_js_spec(search_url: Seq<char>) -> JsLevel {
    if starts_with(search_url, "@js:"@) {
        let body = search_url.skip(4);
        if contains(body, "java.startBrowserAwait"@) {
            JsLevel::L3Unrecoverable
        } else if contains(body, "java.ajax"@) || contains(body, "java.post"@) || contains(
            body,
            "cookie."@,
        ) {
            JsLevel::L3Polyfillable
        } else if contains(body, "function"@) || contains(body, "try {"@) || contains(
            body,
            "JSON.stringify"@,
        ) || count_char(body, '\n') > 3 {
            JsLevel::L2
        } else {
            JsLevel::L1
        }
    } else if contains(search_url, "<js>"@) {
        if contains(search_url, "java.startBrowserAwait"@) {
            JsLevel::L3Unrecoverable
        } else if contains(search_url, "java.ajax"@) || contains(search_url, "java.post"@) {
            JsLevel::L3Polyfillable
        } else {
            JsLevel::L2
        }
    } else if contains(search_url, "{{"@) {
        JsLevel::Template
    } else {
        JsLevel::PlainUrl
    }
}

fn count_char_exec(s: &[char], c: char) -> (n: usize)
    ensures
        n == count_char(s@, c),
{
    let mut n: usize = 0;
    let mut i: usize = 0;
    assert(s@.take(0) =~= Seq::<char>::empty());
    while i < s.len()
        invariant
            i <= s@.len(),
            n == count_char(s@.take(i as int), c),
            n <= i,
        decreases s.len() - i,
    {
        assert(s@.take(i + 1).drop_last() =~= s@.take(i as int));
        if s[i] == c {
            n += 1;
        }
        i += 1;
    }
    assert(s@.take(s@.len() as int) =~= s@);
    n
}

/// Classify a JS search URL by complexity.
pub fn classify_js(search_url: &str) -> (level: JsLevel)
    ensures
        level == classify_js_spec(search_url@),
{
    let s = chars_of(search_url);
    if starts_with_exec(&s, &chars_of("@js:")) {
        proof {
            reveal_strlit("@js:");
        }
        let body = subvec(&s, 4, s.len());
        assert(body@ =~= search_url@.skip(4));
        if contains_exec(&body, &chars_of("java.startBrowserAwait")) {
            return JsLevel::L3Unrecoverable;
        }
        if contains_exec(&body, &chars_of("java.ajax")) || contains_exec(
            &body,
            &chars_of("java.post"),
        ) || contains_exec(&body, &chars_of("cookie.")) {
            return JsLevel::L3Polyfillable;
        }
        if contains_exec(&body, &chars_of("function")) || contains_exec(&body, &chars_of("try {"))
            || contains_exec(&body, &chars_of("JSON.stringify")) || count_char_exec(&body, '\n')
            > 3 {
            return JsLevel::L2;
        }
        JsLevel::L1
    } else if contains_exec(&s, &chars_of("<js>")) {
        if contains_exec(&s, &chars_of("java.startBrowserAwait")) {
            return JsLevel::L3Unrecoverable;
        }
        if contains_exec(&s, &chars_of("java.ajax")) || contains_exec(&s, &chars_of("java.post")) {
            return JsLevel::L3Polyfillable;
        }
        JsLevel::L2
    } else if contains_exec(&s, &chars_of("{{")) {
        JsLevel::Template
    } else {
        JsLevel::PlainUrl
    }
}

} // verus!
