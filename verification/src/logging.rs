//! Redaction of secrets before text reaches the log, and truncation of
//! long log entries.
use vstd::prelude::*;
use crate::json::{json_document, json_text, parse_json_document, write_json_document, JsonValue};
use crate::normalize::{find_first, first_occ_from, lemma_first_occ_props, lit_string};
use crate::text::{
    ascii_lower, chars_of, ends_with, ends_with_str, eq_lit, extend_chars, extend_str,
    is_whitespace, is_ws, occurs_at, slice_vec, string_of, to_ascii_lowercase, trim, trim_chars,
};

verus! {

/// The name of the log archive offered for export.
pub fn default_export_file_name() -> (r: &'static str)
    ensures
        r@ == "shuaforge-logs.zip"@,
{
    "shuaforge-logs.zip"
}

/// The first position of `c` in `s`.
pub open spec fn index_of_char(s: Seq<char>, c: char) -> Option<int>
    decreases s.len(),
{
    if s.len() == 0 {
        None
    } else if s[0] == c {
        Some(0)
    } else {
        match index_of_char(s.drop_first(), c) {
            Some(i) => Some(i + 1),
            None => None,
        }
    }
}

proof fn lemma_index_of_char(s: Seq<char>, c: char, i: int)
    requires
        0 <= i <= s.len(),
        forall|j: int| 0 <= j < i ==> s[j] != c,
        i == s.len() || s[i] == c,
    ensures
        index_of_char(s, c) == if i == s.len() {
            None::<int>
        } else {
            Some(i)
        },
    decreases i,
{
    if i > 0 {
        lemma_index_of_char(s.drop_first(), c, i - 1);
    } else if s.len() > 0 {
    }
}

pub fn find_char(s: &[char], c: char) -> (r: Option<usize>)
    ensures
        match r {
            Some(i) => index_of_char(s@, c) == Some(i as int) && i < s@.len(),
            None => index_of_char(s@, c) is None,
        },
{
    let mut i: usize = 0;
    while i < s.len()
        invariant
            i <= s@.len(),
            forall|j: int| 0 <= j < i ==> s@[j] != c,
        decreases s@.len() - i,
    {
        if s[i] == c {
            proof {
                lemma_index_of_char(s@, c, i as int);
            }
            return Some(i);
        }
        i = i + 1;
    }
    proof {
        lemma_index_of_char(s@, c, i as int);
    }
    None
}

/// A URL with its query and fragment replaced by `<redacted>`.
pub open spec fn redacted_url(url: Seq<char>) -> Seq<char> {
    let t = trim(url);
    if t.len() == 0 {
        Seq::empty()
    } else {
        let b = match index_of_char(t, '#') {
            Some(i) => t.take(i),
            None => t,
        };
        let r = match index_of_char(b, '?') {
            Some(j) => b.take(j) + "?<redacted>"@,
            None => b,
        };
        if index_of_char(t, '#') is Some {
            r + "#<redacted>"@
        } else {
            r
        }
    }
}

/// Hides the query and fragment of a URL
/// (`https://example.test/path?api_key=abc#token` becomes
/// `https://example.test/path?<redacted>#<redacted>`).
pub fn redact_url(url: &str) -> (r: String)
    ensures
        r@ == redacted_url(url@),
{
    let u = chars_of(url);
    let t = trim_chars(&u);
    if t.len() == 0 {
        return String::new();
    }
    let hash = find_char(&t, '#');
    let b = match hash {
        Some(i) => {
            let v = slice_vec(&t, 0, i);
            assert(v@ =~= t@.take(i as int));
            v
        },
        None => {
            let v = slice_vec(&t, 0, t.len());
            assert(v@ =~= t@);
            v
        },
    };
    let mut out = match find_char(&b, '?') {
        Some(j) => {
            let mut v = slice_vec(&b, 0, j);
            assert(v@ =~= b@.take(j as int));
            extend_str(&mut v, "?<redacted>");
            v
        },
        None => b,
    };
    if hash.is_some() {
        extend_str(&mut out, "#<redacted>");
    }
    string_of(&out)
}

/// Characters that end a secret value after a marker.
pub open spec fn ends_value(c: char) -> bool {
    is_ws(c) || c == '&' || c == '"' || c == '\'' || c == ',' || c == '}'
}

/// Length of the secret value at the start of `s`.
pub open spec fn value_end(s: Seq<char>) -> int
    decreases s.len(),
{
    if s.len() == 0 {
        0
    } else if ends_value(s[0]) {
        0
    } else {
        1 + value_end(s.drop_first())
    }
}

pub proof fn lemma_value_end_bound(s: Seq<char>)
    ensures
        0 <= value_end(s) <= s.len(),
    decreases s.len(),
{
    if s.len() > 0 && !ends_value(s[0]) {
        lemma_value_end_bound(s.drop_first());
    }
}

proof fn lemma_value_end(s: Seq<char>, i: int)
    requires
        0 <= i <= s.len(),
        forall|j: int| 0 <= j < i ==> !ends_value(s[j]),
        i == s.len() || ends_value(s[i]),
    ensures
        value_end(s) == i,
    decreases i,
{
    if i > 0 {
        lemma_value_end(s.drop_first(), i - 1);
    }
}

/// Every value following `marker` replaced by `<redacted>`.
pub open spec fn redact_marker(s: Seq<char>, m: Seq<char>) -> Seq<char>
    decreases s.len(),
{
    if m.len() == 0 {
        s
    } else {
        proof {
            lemma_first_occ_props(s, m, 0);
        }
        match first_occ_from(s, m, 0) {
            None => s,
            Some(i) => {
                let after = s.skip(i + m.len());
                proof {
                    lemma_value_end_bound(after);
                }
                s.take(i) + m + "<redacted>"@ + redact_marker(after.skip(value_end(after)), m)
            },
        }
    }
}

fn is_value_end(c: char) -> (r: bool)
    ensures
        r == ends_value(c),
{
    is_whitespace(c) || c == '&' || c == '"' || c == '\'' || c == ',' || c == '}'
}

fn value_end_exec(s: &[char], from: usize) -> (r: usize)
    requires
        from <= s@.len(),
    ensures
        from <= r <= s@.len(),
        r - from == value_end(s@.skip(from as int)),
{
    let mut i: usize = from;
    while i < s.len() && !is_value_end(s[i])
        invariant
            from <= i <= s@.len(),
            forall|j: int| from <= j < i ==> !ends_value(s@[j]),
        decreases s@.len() - i,
    {
        i = i + 1;
    }
    proof {
        let t = s@.skip(from as int);
        assert forall|j: int| 0 <= j < i - from implies !ends_value(t[j]) by {
            assert(t[j] == s@[from + j]);
        }
        if i < s@.len() {
            assert(t[i - from] == s@[i as int]);
        }
        lemma_value_end(t, i - from);
    }
    i
}

pub fn redact_after_marker(text: &[char], marker: &str) -> (r: Vec<char>)
    ensures
        r@ == redact_marker(text@, marker@),
{
    let m = chars_of(marker);
    if m.len() == 0 {
        return slice_vec(text, 0, text.len());
    }
    let mut out: Vec<char> = Vec::new();
    let mut rest = slice_vec(text, 0, text.len());
    assert(rest@ =~= text@);
    loop
        invariant
            m@ == marker@,
            m@.len() > 0,
            out@ + redact_marker(rest@, m@) == redact_marker(text@, m@),
        decreases rest@.len(),
    {
        match find_first(&rest, &m, 0) {
            None => {
                extend_chars(&mut out, &rest);
                return out;
            },
            Some(i) => {
                let ghost r0 = rest@;
                let n = rest.len();
                assert(i + m@.len() <= n);
                let start = i + m.len();
                let end = value_end_exec(&rest, start);
                let before = slice_vec(&rest, 0, i);
                extend_chars(&mut out, &before);
                extend_chars(&mut out, &m);
                extend_str(&mut out, "<redacted>");
                let tail = slice_vec(&rest, end, rest.len());
                proof {
                    let after = r0.skip(i + m@.len());
                    assert(after.skip(value_end(after)) =~= tail@);
                    assert(before@ =~= r0.take(i as int));
                }
                rest = tail;
            },
        }
    }
}

/// `text` with the values after `Bearer `, `bearer `, `api_key=`,
/// `apikey=`, `key=` and `token=` redacted, in that order.
pub open spec fn redacted_text(text: Seq<char>) -> Seq<char> {
    redact_marker(
        redact_marker(
            redact_marker(
                redact_marker(
                    redact_marker(redact_marker(text, "Bearer "@), "bearer "@),
                    "api_key="@,
                ),
                "apikey="@,
            ),
            "key="@,
        ),
        "token="@,
    )
}

/// Hides bearer tokens and key/token parameters
/// (`Authorization: Bearer secret123` becomes
/// `Authorization: Bearer <redacted>`).
pub fn redact_text(text: &str) -> (r: String)
    ensures
        r@ == redacted_text(text@),
{
    let t = chars_of(text);
    let a = redact_after_marker(&t, "Bearer ");
    let b = redact_after_marker(&a, "bearer ");
    let c = redact_after_marker(&b, "api_key=");
    let d = redact_after_marker(&c, "apikey=");
    let e = redact_after_marker(&d, "key=");
    let f = redact_after_marker(&e, "token=");
    string_of(&f)
}

/// The first `max` characters of `s`, marked when more followed.
pub open spec fn truncated(s: Seq<char>, max: int) -> Seq<char> {
    if s.len() > max {
        s.take(max) + "…<truncated>"@
    } else {
        s
    }
}

pub fn truncate_chars(text: &str, max_chars: usize) -> (r: String)
    ensures
        r@ == truncated(text@, max_chars as int),
{
    let t = chars_of(text);
    if t.len() > max_chars {
        let mut v = slice_vec(&t, 0, max_chars);
        assert(v@ =~= t@.take(max_chars as int));
        extend_str(&mut v, "…<truncated>");
        string_of(&v)
    } else {
        string_of(&t)
    }
}

/// Redacted and truncated text for a log entry.
pub fn summarize_text(text: &str, max_chars: usize) -> (r: String)
    ensures
        r@ == truncated(redacted_text(text@), max_chars as int),
{
    let redacted = redact_text(text);
    truncate_chars(redacted.as_str(), max_chars)
}

pub open spec fn lower_ascii_seq(s: Seq<char>) -> Seq<char> {
    s.map_values(|c: char| ascii_lower(c))
}

/// JSON keys whose values are secrets (compared ignoring ASCII case).
pub open spec fn sensitive_key(key: Seq<char>) -> bool {
    let k = lower_ascii_seq(key);
    ||| k == "api_key"@
    ||| k == "apikey"@
    ||| k == "authorization"@
    ||| k == "password"@
    ||| k == "passwd"@
    ||| k == "secret"@
    ||| k == "token"@
    ||| k == "access_token"@
    ||| k == "refresh_token"@
    ||| k == "client_secret"@
    ||| ends_with(k, "_secret"@)
    ||| ends_with(k, "_token"@)
}

pub fn lower_ascii_chars(s: &[char]) -> (r: Vec<char>)
    ensures
        r@ == lower_ascii_seq(s@),
{
    let mut out: Vec<char> = Vec::new();
    let mut i: usize = 0;
    while i < s.len()
        invariant
            i <= s@.len(),
            out@ == lower_ascii_seq(s@.take(i as int)),
        decreases s@.len() - i,
    {
        out.push(to_ascii_lowercase(s[i]));
        assert(lower_ascii_seq(s@.take(i + 1)) =~= lower_ascii_seq(s@.take(i as int)).push(
            ascii_lower(s@[i as int]),
        ));
        i = i + 1;
    }
    assert(s@.take(s@.len() as int) =~= s@);
    out
}

pub fn is_sensitive_key(key: &str) -> (r: bool)
    ensures
        r == sensitive_key(key@),
{
    let kv = chars_of(key);
    let k = lower_ascii_chars(&kv);
    eq_lit(&k, "api_key") || eq_lit(&k, "apikey") || eq_lit(&k, "authorization") || eq_lit(
        &k,
        "password",
    ) || eq_lit(&k, "passwd") || eq_lit(&k, "secret") || eq_lit(&k, "token") || eq_lit(
        &k,
        "access_token",
    ) || eq_lit(&k, "refresh_token") || eq_lit(&k, "client_secret") || ends_with_str(
        &k,
        "_secret",
    ) || ends_with_str(&k, "_token")
}

// ------------------------------------------------------------------
// JSON documents
// ------------------------------------------------------------------
/// `after` is `before` with secrets hidden: members under sensitive keys
/// become `"<redacted>"`, every string is redacted as text, and the rest
/// (shape, keys, numbers, flags) stays.
pub open spec fn is_redaction(before: JsonValue, after: JsonValue) -> bool
    decreases before,
{
    match before {
        JsonValue::Null => after == JsonValue::Null,
        JsonValue::Bool(b) => after == JsonValue::Bool(b),
        JsonValue::Number(n) => after matches JsonValue::Number(m) && m@ == n@,
        JsonValue::Str(t) => after matches JsonValue::Str(u) && u@ == redacted_text(t@),
        JsonValue::Array(items) => match after {
            JsonValue::Array(out) => out@.len() == items@.len() && forall|i: int|
                0 <= i < items@.len() ==> is_redaction(#[trigger] items@[i], out@[i]),
            _ => false,
        },
        JsonValue::Object(members) => match after {
            JsonValue::Object(out) => out@.len() == members@.len() && forall|i: int|
                0 <= i < members@.len() ==> (#[trigger] out@[i]).0@ == members@[i].0@ && if sensitive_key(
                    members@[i].0@,
                ) {
                    out@[i].1 matches JsonValue::Str(u) && u@ == "<redacted>"@
                } else {
                    is_redaction(members@[i].1, out@[i].1)
                },
            _ => false,
        },
    }
}

/// The document with its secrets hidden (see [`is_redaction`]).
pub fn redact_json_value(value: &JsonValue) -> (r: JsonValue)
    ensures
        is_redaction(*value, r),
    decreases value,
{
    match value {
        JsonValue::Null => JsonValue::Null,
        JsonValue::Bool(b) => JsonValue::Bool(*b),
        JsonValue::Number(n) => JsonValue::Number(lit_string(n.as_str())),
        JsonValue::Str(t) => JsonValue::Str(redact_text(t.as_str())),
        JsonValue::Array(items) => {
            let mut out: Vec<JsonValue> = Vec::new();
            let mut i: usize = 0;
            while i < items.len()
                invariant
                    i <= items@.len(),
                    out@.len() == i,
                    *value == JsonValue::Array(*items),
                    forall|j: int| 0 <= j < i ==> is_redaction(#[trigger] items@[j], out@[j]),
                decreases items@.len() - i,
            {
                assert(decreases_to!(*value => (*value)->Array_0));
                assert(decreases_to!(*items => items@));
                assert(decreases_to!(items@ => items@[i as int]));
                let r = redact_json_value(&items[i]);
                out.push(r);
                i = i + 1;
            }
            JsonValue::Array(out)
        },
        JsonValue::Object(members) => {
            let mut out: Vec<(String, JsonValue)> = Vec::new();
            let mut i: usize = 0;
            while i < members.len()
                invariant
                    i <= members@.len(),
                    out@.len() == i,
                    *value == JsonValue::Object(*members),
                    forall|j: int|
                        0 <= j < i ==> (#[trigger] out@[j]).0@ == members@[j].0@ && if sensitive_key(
                            members@[j].0@,
                        ) {
                            out@[j].1 matches JsonValue::Str(u) && u@ == "<redacted>"@
                        } else {
                            is_redaction(members@[j].1, out@[j].1)
                        },
                decreases members@.len() - i,
            {
                let key = lit_string(members[i].0.as_str());
                if is_sensitive_key(members[i].0.as_str()) {
                    out.push((key, JsonValue::Str(lit_string("<redacted>"))));
                } else {
                    assert(decreases_to!(*value => (*value)->Object_0));
                    assert(decreases_to!(*members => members@));
                    assert(decreases_to!(members@ => members@[i as int]));
                    assert(decreases_to!(members@[i as int] => members@[i as int].1));
                    let r = redact_json_value(&members[i].1);
                    out.push((key, r));
                }
                i = i + 1;
            }
            JsonValue::Object(out)
        },
    }
}

/// What a JSON log entry becomes: the document with its secrets hidden,
/// written again, or the text redacted as plain text where it is not JSON
/// (or cannot be written); then cut to `max_chars` characters.
pub open spec fn redacted_json_entry(text: Seq<char>, clean: Option<JsonValue>) -> Seq<char> {
    match clean {
        Some(c) => match json_text(c) {
            Some(t) => t,
            None => redacted_text(text),
        },
        None => redacted_text(text),
    }
}

pub fn redact_json_text(text: &str, max_chars: usize) -> (r: String)
    ensures
        match json_document(text@) {
            Some(doc) => exists|clean: JsonValue|
                is_redaction(doc, clean) && r@ == truncated(
                    redacted_json_entry(text@, Some(clean)),
                    max_chars as int,
                ),
            None => r@ == truncated(redacted_json_entry(text@, None), max_chars as int),
        },
{
    let redacted = match parse_json_document(text) {
        Some(doc) => {
            let clean = redact_json_value(&doc);
            let ghost cv = clean;
            match write_json_document(clean) {
                Some(t) => {
                    assert(redacted_json_entry(text@, Some(cv)) == t@);
                    t
                },
                None => redact_text(text),
            }
        },
        None => redact_text(text),
    };
    truncate_chars(redacted.as_str(), max_chars)
}

} // verus!
