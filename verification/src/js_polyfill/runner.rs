//! Reading what the Node.js polyfill script prints. (Running Node is I/O and
//! stays with the program.)
use vstd::prelude::*;
use crate::json::{json_parse, parse_json, JsonValue};
use crate::rule_dsl::json_extractor::{get_member, lemma_member_index_from, member_index_from};
use crate::text::{chars_of, eq_exec, split_char, split_char_exec, string_of, trim, trim_chars};

verus! {

/// The lines of `s` (`str::lines`, line terminators not removed beyond `\n`;
/// each line is trimmed before use, which also drops a `\r`).
pub open spec fn lines_spec(s: Seq<char>) -> Seq<Seq<char>> {
    let pieces = split_char(s, '\n');
    if pieces.last().len() == 0 {
        pieces.drop_last()
    } else {
        pieces
    }
}

/// For a printed JSON object whose `type` is `"result"`: `Some(url)` with its
/// `url` string if it has one; `None` for any other value.
pub open spec fn result_line_spec(v: JsonValue) -> Option<Option<Seq<char>>> {
    match get_member(v, "type"@) {
        Some(JsonValue::Str(t)) => if t@ == "result"@ {
            Some(
                match get_member(v, "url"@) {
                    Some(JsonValue::Str(u)) => Some(u@),
                    _ => None,
                },
            )
        } else {
            None
        },
        _ => None,
    }
}

/// The URL of the last result line among `lines` (searching from the end).
pub open spec fn last_result_url(lines: Seq<Seq<char>>) -> Option<Seq<char>>
    decreases lines.len(),
{
    if lines.len() == 0 {
        None
    } else {
        let parsed = match json_parse(trim(lines.last())) {
            Some(v) => result_line_spec(v),
            None => None,
        };
        match parsed {
            Some(url) => url,
            None => last_result_url(lines.drop_last()),
        }
    }
}

fn member_str(v: &JsonValue, key: &str) -> (r: Option<String>)
    ensures
        r.deep_view() == (match get_member(*v, key@) {
            Some(JsonValue::Str(s)) => Some(s@),
            _ => None,
        }),
{
    match v {
        JsonValue::Object(m) => {
            let k = chars_of(key);
            let mut i: usize = 0;
            while i < m.len()
                invariant
                    i <= m@.len(),
                    k@ == key@,
                    *v == JsonValue::Object(*m),
                    member_index_from(m@, key@, 0) == member_index_from(m@, key@, i as int),
                decreases m.len() - i,
            {
                if eq_exec(&chars_of(m[i].0.as_str()), &k) {
                    assert(member_index_from(m@, key@, i as int) == Some(i as int));
                    assert(get_member(*v, key@) == Some(m@[i as int].1));
                    return match &m[i].1 {
                        JsonValue::Str(s) => Some(string_of(&chars_of(s.as_str()))),
                        _ => None,
                    };
                }
                i += 1;
            }
            None
        },
        _ => None,
    }
}

/// Reads one printed JSON value: `Some(url)` for a result line.
pub fn result_line(v: &JsonValue) -> (r: Option<Option<String>>)
    ensures
        r.deep_view() == result_line_spec(*v),
{
    match member_str(v, "type") {
        Some(t) => {
            if eq_exec(&chars_of(t.as_str()), &chars_of("result")) {
                Some(member_str(v, "url"))
            } else {
                None
            }
        },
        None => None,
    }
}

/// The URL the polyfill script reported: the last line of `stdout` that is a
/// JSON object with `"type": "result"`.
pub fn parse_runner_output(stdout: &str) -> (r: Option<String>)
    ensures
        r.deep_view() == last_result_url(lines_spec(stdout@)),
{
    let pieces = split_char_exec(&chars_of(stdout), '\n');
    let ghost pv = pieces.deep_view();
    let mut n = pieces.len();
    proof {
        crate::text::lemma_chars_deep_view(pieces@[n - 1]);
    }
    if pieces[n - 1].len() == 0 {
        n = n - 1;
    }
    assert(pv.take(n as int) =~= lines_spec(stdout@));
    while n > 0
        invariant
            n <= pieces@.len(),
            pv == pieces.deep_view(),
            last_result_url(lines_spec(stdout@)) == last_result_url(pv.take(n as int)),
        decreases n,
    {
        proof {
            crate::text::lemma_chars_deep_view(pieces@[n - 1]);
            assert(pv.take(n as int).drop_last() =~= pv.take(n - 1));
            assert(pv.take(n as int).last() == pieces@[n - 1]@);
        }
        let line = string_of(&trim_chars(&pieces[n - 1]));
        match parse_json(line.as_str()) {
            Some(v) => match result_line(&v) {
                Some(url) => {
                    return url;
                },
                None => {},
            },
            None => {},
        }
        n -= 1;
    }
    None
}

} // verus!
