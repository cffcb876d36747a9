//! Extraction of values from JSON with `$.path`, `$[*].path` and
//! `data.path` rules.
use vstd::prelude::*;
use crate::json::{json_compact, to_json_text, JsonValue};
use crate::rule_dsl::parser::{RuleToken, TokenView};
use crate::text::{
    all_ascii_digits, chars_of, contains, contains_exec, decimal_value, ends_with, ends_with_exec,
    eq_exec, find, find_exec, keep_nonempty, lemma_chars_deep_view, lemma_find,
    lemma_push_deep_view, lemma_vec_push_deep_view, parse_decimal, split_char, split_char_exec,
    starts_with, starts_with_exec, string_of, subvec, trim, trim_chars, trim_end_char,
    trim_end_char_exec, trim_start_char, trim_start_char_exec,
};

verus! {

// ───────────────────────────── specifications ─────────────────────────────

/// `usize::from_str`: an optional `+` then one or more ASCII digits, in range.
pub open spec fn parse_usize_spec(s: Seq<char>) -> Option<usize> {
    let digits = if s.len() > 0 && s[0] == '+' {
        s.skip(1)
    } else {
        s
    };
    if digits.len() > 0 && all_ascii_digits(digits) && decimal_value(digits) <= usize::MAX {
        Some(decimal_value(digits) as usize)
    } else {
        None
    }
}

/// The text a value contributes as a result.
pub open spec fn stringify_spec(v: JsonValue) -> Seq<char> {
    match v {
        JsonValue::Str(s) => s@,
        JsonValue::Number(t) => t@,
        JsonValue::Bool(b) => if b {
            "true"@
        } else {
            "false"@
        },
        JsonValue::Null => seq![],
        _ => match json_compact(v) {
            Some(t) => t,
            None => seq![],
        },
    }
}

/// Position of the first member at or after `i` named `key`.
pub open spec fn member_index_from(members: Seq<(String, JsonValue)>, key: Seq<char>, i: int) -> Option<
    int,
>
    decreases members.len() - i,
{
    if i < 0 || i >= members.len() {
        None
    } else if members[i].0@ == key {
        Some(i)
    } else {
        member_index_from(members, key, i + 1)
    }
}

pub proof fn lemma_member_index_from(members: Seq<(String, JsonValue)>, key: Seq<char>, i: int)
    ensures
        member_index_from(members, key, i) matches Some(k) ==> 0 <= i <= k < members.len()
            && members[k].0@ == key,
    decreases members.len() - i,
{
    if 0 <= i < members.len() && members[i].0@ != key {
        lemma_member_index_from(members, key, i + 1);
    }
}

/// The value of the first member of `members` named `key`.
pub open spec fn lookup(members: Seq<(String, JsonValue)>, key: Seq<char>) -> Option<JsonValue> {
    match member_index_from(members, key, 0) {
        Some(k) => Some(members[k].1),
        None => None,
    }
}

/// `serde_json::Value::get` with a string key: object members only.
pub open spec fn get_member(v: JsonValue, key: Seq<char>) -> Option<JsonValue> {
    match v {
        JsonValue::Object(m) => lookup(m@, key),
        _ => None,
    }
}

pub open spec fn is_wildcard(head: Seq<char>) -> bool {
    head == "[*]"@ || head == "*"@ || head == "[]"@
}

/// An array index segment such as `[2]` or `2`.
pub open spec fn index_segment(head: Seq<char>) -> Option<usize> {
    parse_usize_spec(trim_end_char(trim_start_char(head, '['), ']'))
}

/// The values reached from `v` along `path`, stringified, in document order.
pub open spec fn collect_spec(v: JsonValue, path: Seq<Seq<char>>) -> Seq<Seq<char>>
    decreases v, 1int,
{
    if path.len() == 0 {
        seq![stringify_spec(v)]
    } else {
        let head = path[0];
        let tail = path.drop_first();
        match v {
            JsonValue::Array(arr) => if is_wildcard(head) {
                collect_items(arr@, tail)
            } else if let Some(idx) = index_segment(head) {
                if idx < arr@.len() {
                    collect_spec(arr@[idx as int], tail)
                } else {
                    seq![]
                }
            } else {
                collect_items(arr@, seq![head])
            },
            JsonValue::Object(m) => match member_index_from(m@, head, 0) {
                Some(k) => {
                    proof {
                        lemma_member_index_from(m@, head, 0);
                    }
                    collect_spec(m@[k].1, tail)
                },
                None => seq![],
            },
            _ => seq![],
        }
    }
}

/// [`collect_spec`] of each item, concatenated.
pub open spec fn collect_items(items: Seq<JsonValue>, path: Seq<Seq<char>>) -> Seq<Seq<char>>
    decreases items, 0int,
{
    if items.len() == 0 {
        seq![]
    } else {
        collect_items(items.drop_last(), path) + collect_spec(items.last(), path)
    }
}

/// Segments of one `.`-separated part of a `$.` path: `data[*]` → `data`, `[*]`.
pub open spec fn dot_part_segments(part: Seq<char>) -> Seq<Seq<char>> {
    if ends_with(part, "]"@) && contains(part, "["@) {
        match find(part, "["@) {
            Some(b) => (if b > 0 {
                seq![part.take(b)]
            } else {
                seq![]
            }) + seq![part.skip(b)],
            None => seq![part],
        }
    } else {
        seq![part]
    }
}

pub open spec fn segments_of(parts: Seq<Seq<char>>) -> Seq<Seq<char>>
    decreases parts.len(),
{
    if parts.len() == 0 {
        seq![]
    } else {
        segments_of(parts.drop_last()) + dot_part_segments(parts.last())
    }
}

/// Path segments of the text after `$.`.
pub open spec fn dollar_dot_parts(rest: Seq<char>) -> Seq<Seq<char>> {
    segments_of(split_char(rest, '.'))
}

pub open spec fn nonempty_parts(parts: Seq<Seq<char>>) -> Seq<Seq<char>>
    decreases parts.len(),
{
    if parts.len() == 0 {
        seq![]
    } else {
        nonempty_parts(parts.drop_last()) + keep_nonempty(parts.last())
    }
}

/// Path segments of the text after `$[`: what follows the first `]`, split at `.`.
pub open spec fn bracket_parts(rest: Seq<char>) -> Seq<Seq<char>> {
    let pieces = split_char(rest, ']');
    let after = if pieces.len() > 1 {
        pieces[1]
    } else {
        seq![]
    };
    nonempty_parts(split_char(after, '.'))
}

/// The value reached by following object members named `parts`.
pub open spec fn follow_members(v: JsonValue, parts: Seq<Seq<char>>) -> Option<JsonValue>
    decreases parts.len(),
{
    if parts.len() == 0 {
        Some(v)
    } else {
        match get_member(v, parts[0]) {
            Some(next) => follow_members(next, parts.drop_first()),
            None => None,
        }
    }
}

pub open spec fn json_path_spec(json: JsonValue, path: Seq<char>) -> Seq<Seq<char>> {
    let p = trim(path);
    if starts_with(p, "$."@) {
        collect_spec(json, dollar_dot_parts(p.skip(2)))
    } else if starts_with(p, "$["@) && starts_with(p.skip(2), "*"@) {
        let parts = bracket_parts(p.skip(2));
        match json {
            JsonValue::Array(arr) => collect_items(arr@, parts),
            _ => collect_spec(json, parts),
        }
    } else {
        seq![stringify_spec(json)]
    }
}

pub open spec fn data_path_spec(json: JsonValue, parts: Seq<Seq<char>>) -> Seq<Seq<char>> {
    match follow_members(json, parts) {
        None => seq![],
        Some(cur) => match cur {
            JsonValue::Array(arr) => Seq::new(arr@.len(), |i: int| stringify_spec(arr@[i])),
            _ => seq![stringify_spec(cur)],
        },
    }
}

/// What the first token extracts from `json` (only paths extract anything).
pub open spec fn json_extract_spec(json: JsonValue, tokens: Seq<TokenView>) -> Seq<Seq<char>> {
    if tokens.len() == 0 {
        seq![]
    } else {
        match tokens[0] {
            TokenView::JsonPath(path) => json_path_spec(json, path),
            TokenView::DataPath(parts) => data_path_spec(json, parts),
            _ => seq![],
        }
    }
}

// ───────────────────────────── laws ─────────────────────────────

proof fn lemma_member_index_complete(members: Seq<(String, JsonValue)>, key: Seq<char>, i: int, j: int)
    requires
        0 <= i <= j < members.len(),
        members[j].0@ == key,
    ensures
        member_index_from(members, key, i) matches Some(k) && k <= j,
    decreases j - i,
{
    if members[i].0@ != key {
        lemma_member_index_complete(members, key, i + 1, j);
    }
}

proof fn lemma_member_index_first(members: Seq<(String, JsonValue)>, key: Seq<char>, i: int)
    requires
        0 <= i,
    ensures
        member_index_from(members, key, i) matches Some(k) ==> forall|j: int|
            i <= j < k ==> (#[trigger] members[j]).0@ != key,
    decreases members.len() - i,
{
    if 0 <= i < members.len() && members[i].0@ != key {
        lemma_member_index_first(members, key, i + 1);
    }
}

/// Law: a member is looked up by name: the value found is that of the first
/// member with that name, and one is found whenever such a member exists.
pub proof fn lemma_lookup_first_member(members: Seq<(String, JsonValue)>, key: Seq<char>)
    ensures
        lookup(members, key) matches Some(v) ==> exists|k: int|
            0 <= k < members.len() && (#[trigger] members[k]).0@ == key && members[k].1 == v
                && forall|j: int| 0 <= j < k ==> (#[trigger] members[j]).0@ != key,
        (exists|k: int| 0 <= k < members.len() && (#[trigger] members[k]).0@ == key) ==> lookup(
            members,
            key,
        ) is Some,
{
    lemma_member_index_from(members, key, 0);
    lemma_member_index_first(members, key, 0);
    if let Some(k) = member_index_from(members, key, 0) {
        assert(members[k].0@ == key);
    }
    if exists|k: int| 0 <= k < members.len() && (#[trigger] members[k]).0@ == key {
        let k = choose|k: int| 0 <= k < members.len() && (#[trigger] members[k]).0@ == key;
        lemma_member_index_complete(members, key, 0, k);
    }
}

/// Law: a `data.` path reads the value reached through the named members:
/// an array there yields one value per element, in order; any other value
/// yields itself; a path that leads nowhere yields nothing.
pub proof fn lemma_data_path_values(json: JsonValue, parts: Seq<Seq<char>>, rest: Seq<TokenView>)
    ensures
        ({
            let r = json_extract_spec(json, seq![TokenView::DataPath(parts)] + rest);
            &&& follow_members(json, parts) matches Some(JsonValue::Array(arr)) ==> r.len() == arr@.len()
                && forall|i: int| 0 <= i < r.len() ==> #[trigger] r[i] == stringify_spec(arr@[i])
            &&& follow_members(json, parts) is None ==> r.len() == 0
            &&& follow_members(json, parts) matches Some(v) ==> (!(v is Array) ==> r == seq![stringify_spec(v)])
        }),
{
    assert((seq![TokenView::DataPath(parts)] + rest)[0] == TokenView::DataPath(parts));
}

/// Law: a string value is extracted as its text, a number as its text,
/// `null` as nothing.
pub proof fn lemma_scalars_stringify(s: String, b: bool)
    ensures
        stringify_spec(JsonValue::Str(s)) == s@,
        stringify_spec(JsonValue::Number(s)) == s@,
        stringify_spec(JsonValue::Null).len() == 0,
        stringify_spec(JsonValue::Bool(b)) == (if b { "true"@ } else { "false"@ }),
{
}

// ───────────────────────────── executable ─────────────────────────────

/// `usize::from_str`.
pub fn parse_usize(s: &[char]) -> (r: Option<usize>)
    ensures
        r == parse_usize_spec(s@),
{
    let n = s.len();
    let digits = if n > 0 && s[0] == '+' {
        let d = subvec(s, 1, n);
        assert(d@ =~= s@.skip(1));
        d
    } else {
        let d = subvec(s, 0, n);
        assert(d@ =~= s@);
        d
    };
    let ghost spec_digits = if s@.len() > 0 && s@[0] == '+' {
        s@.skip(1)
    } else {
        s@
    };
    assert(digits@ == spec_digits);
    if digits.len() == 0 {
        return None;
    }
    let mut i: usize = 0;
    while i < digits.len()
        invariant
            i <= digits@.len(),
            digits@ == spec_digits,
            spec_digits == (if s@.len() > 0 && s@[0] == '+' {
                s@.skip(1)
            } else {
                s@
            }),
            forall|k: int| 0 <= k < i ==> crate::text::is_ascii_digit(#[trigger] digits@[k]),
        decreases digits.len() - i,
    {
        if !('0' <= digits[i] && digits[i] <= '9') {
            assert(!crate::text::is_ascii_digit(digits@[i as int]));
            assert(!all_ascii_digits(spec_digits));
            return None;
        }
        i += 1;
    }
    parse_decimal(&digits)
}

pub fn stringify_value(v: &JsonValue) -> (r: String)
    ensures
        r@ == stringify_spec(*v),
{
    match v {
        JsonValue::Str(s) => string_of(&chars_of(s.as_str())),
        JsonValue::Number(t) => string_of(&chars_of(t.as_str())),
        JsonValue::Bool(b) => if *b {
            string_of(&chars_of("true"))
        } else {
            string_of(&chars_of("false"))
        },
        JsonValue::Null => string_of(&Vec::new()),
        _ => match to_json_text(v) {
            Some(t) => t,
            None => string_of(&Vec::new()),
        },
    }
}

fn member_index(members: &Vec<(String, JsonValue)>, key: &[char]) -> (r: Option<usize>)
    ensures
        match r {
            Some(k) => member_index_from(members@, key@, 0) == Some(k as int),
            None => member_index_from(members@, key@, 0) is None,
        },
{
    let mut i: usize = 0;
    while i < members.len()
        invariant
            i <= members@.len(),
            member_index_from(members@, key@, 0) == member_index_from(members@, key@, i as int),
        decreases members.len() - i,
    {
        if eq_exec(&chars_of(members[i].0.as_str()), key) {
            return Some(i);
        }
        i += 1;
    }
    None
}

fn is_wildcard_exec(head: &[char]) -> (b: bool)
    ensures
        b == is_wildcard(head@),
{
    eq_exec(head, &chars_of("[*]")) || eq_exec(head, &chars_of("*")) || eq_exec(
        head,
        &chars_of("[]"),
    )
}

fn push_string(results: &mut Vec<String>, s: String)
    ensures
        final(results).deep_view() == old(results).deep_view().push(s@),
{
    let ghost before = *results;
    results.push(s);
    proof {
        lemma_vec_push_deep_view(before, *results, s);
    }
}

/// Appends the values reached from `value` along `path[from..]`.
fn collect_values(
    value: &JsonValue,
    path: &Vec<Vec<char>>,
    from: usize,
    results: &mut Vec<String>,
)
    requires
        from <= path@.len(),
    ensures
        final(results).deep_view() == old(results).deep_view() + collect_spec(
            *value,
            path.deep_view().skip(from as int),
        ),
    decreases *value,
{
    let ghost pv = path.deep_view().skip(from as int);
    if from == path.len() {
        assert(pv =~= Seq::<Seq<char>>::empty());
        push_string(results, stringify_value(value));
        return;
    }
    let head = &path[from];
    proof {
        lemma_chars_deep_view(path@[from as int]);
        assert(pv[0] == head@);
        assert(pv.drop_first() =~= path.deep_view().skip(from + 1));
    }
    match value {
        JsonValue::Array(arr) => {
            if is_wildcard_exec(head) {
                collect_items_exec(arr, path, from + 1, results);
            } else {
                let trimmed = trim_end_char_exec(&trim_start_char_exec(head, '['), ']');
                match parse_usize(&trimmed) {
                    Some(idx) => {
                        if idx < arr.len() {
                            collect_values(&arr[idx], path, from + 1, results);
                        } else {
                            assert(results.deep_view() =~= old(results).deep_view()
                                + Seq::<Seq<char>>::empty());
                        }
                    },
                    None => {
                        let single: Vec<Vec<char>> = vec![subvec(head, 0, head.len())];
                        proof {
                            assert(head@.subrange(0, head@.len() as int) =~= head@);
                            lemma_chars_deep_view(single@[0]);
                            assert(single.deep_view()[0] == single@[0].deep_view());
                            assert(single.deep_view().skip(0) =~= seq![head@]);
                        }
                        collect_items_exec(arr, &single, 0, results);
                    },
                }
            }
        },
        JsonValue::Object(m) => {
            proof {
                lemma_member_index_from(m@, head@, 0);
            }
            match member_index(m, head) {
                Some(k) => {
                    collect_values(&m[k].1, path, from + 1, results);
                },
                None => {
                    assert(results.deep_view() =~= old(results).deep_view()
                        + Seq::<Seq<char>>::empty());
                },
            }
        },
        _ => {
            assert(results.deep_view() =~= old(results).deep_view() + Seq::<Seq<char>>::empty());
        },
    }
}

/// Appends the values reached from each item along `path[from..]`.
fn collect_items_exec(
    items: &Vec<JsonValue>,
    path: &Vec<Vec<char>>,
    from: usize,
    results: &mut Vec<String>,
)
    requires
        from <= path@.len(),
    ensures
        final(results).deep_view() == old(results).deep_view() + collect_items(
            items@,
            path.deep_view().skip(from as int),
        ),
    decreases items@, 0int,
{
    let ghost pv = path.deep_view().skip(from as int);
    let ghost base = results.deep_view();
    let mut k: usize = 0;
    assert(items@.take(0) =~= Seq::<JsonValue>::empty());
    assert(base + collect_items(items@.take(0), pv) =~= base);
    while k < items.len()
        invariant
            k <= items@.len(),
            from <= path@.len(),
            pv == path.deep_view().skip(from as int),
            results.deep_view() == base + collect_items(items@.take(k as int), pv),
        decreases items.len() - k,
    {
        assert(items@.take(k + 1).drop_last() =~= items@.take(k as int));
        assert(items@.take(k + 1).last() == items@[k as int]);
        let ghost mid = results.deep_view();
        collect_values(&items[k], path, from, results);
        assert(results.deep_view() =~= base + collect_items(items@.take(k + 1), pv));
        k += 1;
    }
    assert(items@.take(items@.len() as int) =~= items@);
}

fn dot_part_segments_exec(part: &[char]) -> (r: Vec<Vec<char>>)
    ensures
        r.deep_view() == dot_part_segments(part@),
{
    let n = part.len();
    let whole = subvec(part, 0, n);
    assert(whole@ =~= part@);
    let open = chars_of("[");
    if ends_with_exec(part, &chars_of("]")) && contains_exec(part, &open) {
        proof {
            lemma_find(part@, open@);
        }
        match find_exec(part, &open) {
            Some(b) => {
                let last = subvec(part, b, n);
                assert(last@ =~= part@.skip(b as int));
                let r = if b > 0 {
                    let first = subvec(part, 0, b);
                    assert(first@ =~= part@.take(b as int));
                    vec![first, last]
                } else {
                    vec![last]
                };
                proof {
                    lemma_chars_deep_view(r@[0]);
                    if b > 0 {
                        lemma_chars_deep_view(r@[1]);
                    }
                }
                assert(r.deep_view() =~= dot_part_segments(part@));
                r
            },
            None => {
                let r = vec![whole];
                proof {
                    lemma_chars_deep_view(r@[0]);
                }
                assert(r.deep_view() =~= dot_part_segments(part@));
                r
            },
        }
    } else {
        let r = vec![whole];
        proof {
            lemma_chars_deep_view(r@[0]);
        }
        assert(r.deep_view() =~= dot_part_segments(part@));
        r
    }
}

fn dollar_dot_parts_exec(rest: &[char]) -> (r: Vec<Vec<char>>)
    ensures
        r.deep_view() == dollar_dot_parts(rest@),
{
    let pieces = split_char_exec(rest, '.');
    let ghost pv = pieces.deep_view();
    let mut out: Vec<Vec<char>> = Vec::new();
    let mut i: usize = 0;
    assert(pv.take(0) =~= Seq::<Seq<char>>::empty());
    assert(out.deep_view() =~= Seq::<Seq<char>>::empty());
    while i < pieces.len()
        invariant
            i <= pieces@.len(),
            pv == pieces.deep_view(),
            out.deep_view() == segments_of(pv.take(i as int)),
        decreases pieces.len() - i,
    {
        proof {
            lemma_chars_deep_view(pieces@[i as int]);
            assert(pv.take(i + 1).drop_last() =~= pv.take(i as int));
        }
        let mut segs = dot_part_segments_exec(&pieces[i]);
        let ghost before = out;
        let ghost sv = segs;
        out.append(&mut segs);
        proof {
            crate::text::lemma_vec_concat_deep_view(before, sv, out);
        }
        i += 1;
    }
    assert(pv.take(pieces@.len() as int) =~= pv);
    out
}

fn bracket_parts_exec(rest: &[char]) -> (r: Vec<Vec<char>>)
    ensures
        r.deep_view() == bracket_parts(rest@),
{
    let pieces = split_char_exec(rest, ']');
    let after = if pieces.len() > 1 {
        proof {
            lemma_chars_deep_view(pieces@[1]);
        }
        subvec(&pieces[1], 0, pieces[1].len())
    } else {
        Vec::new()
    };
    assert(after@ =~= (if split_char(rest@, ']').len() > 1 {
        split_char(rest@, ']')[1]
    } else {
        Seq::<char>::empty()
    }));
    let parts = split_char_exec(&after, '.');
    let ghost pv = parts.deep_view();
    let mut out: Vec<Vec<char>> = Vec::new();
    let mut i: usize = 0;
    assert(pv.take(0) =~= Seq::<Seq<char>>::empty());
    assert(out.deep_view() =~= Seq::<Seq<char>>::empty());
    while i < parts.len()
        invariant
            i <= parts@.len(),
            pv == parts.deep_view(),
            out.deep_view() == nonempty_parts(pv.take(i as int)),
        decreases parts.len() - i,
    {
        proof {
            lemma_chars_deep_view(parts@[i as int]);
            assert(pv.take(i + 1).drop_last() =~= pv.take(i as int));
        }
        if parts[i].len() > 0 {
            let piece = subvec(&parts[i], 0, parts[i].len());
            assert(piece@ =~= parts@[i as int]@);
            let ghost before = out;
            out.push(piece);
            proof {
                lemma_push_deep_view(before, out, piece);
            }
        }
        assert(out.deep_view() =~= nonempty_parts(pv.take(i + 1)));
        i += 1;
    }
    assert(pv.take(parts@.len() as int) =~= pv);
    out
}

/// Extract values from a JSON value using rule tokens (the first token only).
pub fn extract(json: &JsonValue, tokens: &[RuleToken]) -> (r: Vec<String>)
    ensures
        r.deep_view() == json_extract_spec(*json, tokens@.map_values(|t: RuleToken| t@)),
{
    let ghost tv = tokens@.map_values(|t: RuleToken| t@);
    let mut results: Vec<String> = Vec::new();
    assert(results.deep_view() =~= Seq::<Seq<char>>::empty());
    if tokens.len() == 0 {
        return results;
    }
    assert(tv[0] == tokens@[0]@);
    match &tokens[0] {
        RuleToken::JsonPath(path) => {
            let p = trim_chars(&chars_of(path.as_str()));
            let n = p.len();
            if starts_with_exec(&p, &chars_of("$.")) {
                proof {
                    reveal_strlit("$.");
                }
                let rest = subvec(&p, 2, n);
                assert(rest@ =~= p@.skip(2));
                let parts = dollar_dot_parts_exec(&rest);
                assert(parts.deep_view().skip(0) =~= parts.deep_view());
                collect_values(json, &parts, 0, &mut results);
                assert(results.deep_view() =~= json_extract_spec(*json, tv));
            } else if starts_with_exec(&p, &chars_of("$[")) && {
                proof {
                    reveal_strlit("$[");
                }
                let rest = subvec(&p, 2, n);
                assert(rest@ =~= p@.skip(2));
                starts_with_exec(&rest, &chars_of("*"))
            } {
                let rest = subvec(&p, 2, n);
                assert(rest@ =~= p@.skip(2));
                let parts = bracket_parts_exec(&rest);
                assert(parts.deep_view().skip(0) =~= parts.deep_view());
                match json {
                    JsonValue::Array(arr) => {
                        collect_items_exec(arr, &parts, 0, &mut results);
                    },
                    _ => {
                        collect_values(json, &parts, 0, &mut results);
                    },
                }
                assert(results.deep_view() =~= json_extract_spec(*json, tv));
            } else {
                push_string(&mut results, stringify_value(json));
                assert(results.deep_view() =~= json_extract_spec(*json, tv));
            }
        },
        RuleToken::DataPath(parts) => {
            let ghost pv = parts.deep_view();
            let mut current: &JsonValue = json;
            let mut k: usize = 0;
            assert(pv.skip(0) =~= pv);
            while k < parts.len()
                invariant
                    k <= parts@.len(),
                    pv == parts.deep_view(),
                    results.deep_view() == Seq::<Seq<char>>::empty(),
                    json_extract_spec(*json, tv) == data_path_spec(*json, pv),
                    tv == tokens@.map_values(|t: RuleToken| t@),
                    follow_members(*json, pv) == follow_members(*current, pv.skip(k as int)),
                decreases parts.len() - k,
            {
                let key = chars_of(parts[k].as_str());
                assert(pv.skip(k as int)[0] == key@);
                assert(pv.skip(k as int).drop_first() =~= pv.skip(k + 1));
                match current {
                    JsonValue::Object(m) => {
                        proof {
                            lemma_member_index_from(m@, key@, 0);
                        }
                        match member_index(m, &key) {
                            Some(j) => {
                                current = &m[j].1;
                            },
                            None => {
                                assert(follow_members(*current, pv.skip(k as int)) is None);
                                return results;
                            },
                        }
                    },
                    _ => {
                        assert(follow_members(*current, pv.skip(k as int)) is None);
                        return results;
                    },
                }
                k += 1;
            }
            assert(pv.skip(parts@.len() as int) =~= Seq::<Seq<char>>::empty());
            match current {
                JsonValue::Array(arr) => {
                    let mut i: usize = 0;
                    while i < arr.len()
                        invariant
                            i <= arr@.len(),
                            results.deep_view() == Seq::new(
                                i as nat,
                                |j: int| stringify_spec(arr@[j]),
                            ),
                        decreases arr.len() - i,
                    {
                        push_string(&mut results, stringify_value(&arr[i]));
                        assert(results.deep_view() =~= Seq::new(
                            (i + 1) as nat,
                            |j: int| stringify_spec(arr@[j]),
                        ));
                        i += 1;
                    }
                },
                _ => {
                    push_string(&mut results, stringify_value(current));
                },
            }
            assert(results.deep_view() =~= json_extract_spec(*json, tv));
        },
        _ => {},
    }
    results
}

} // verus!
