//! What the REST client computes: the query string of the notes listing
//! (with `encodeURIComponent` escaping) and the message of a failed request.
use vstd::prelude::*;
use crate::field_extractors::join;
use crate::text::{decimal, push_decimal, push_str};
use vstd::utf8::encode_utf8;

verus! {

broadcast use vstd::string::group_string_axioms;

// ---------------------------------------------------------------------------
// encodeURIComponent
// ---------------------------------------------------------------------------

/// The bytes `encodeURIComponent` leaves as they are:
/// `A-Z a-z 0-9 - _ . ! ~ * ' ( )`.
pub open spec fn is_unreserved(b: u8) -> bool {
    ||| 65 <= b <= 90
    ||| 97 <= b <= 122
    ||| 48 <= b <= 57
    ||| b == 45 || b == 95 || b == 46 || b == 33 || b == 126 || b == 42 || b == 39 || b == 40
        || b == 41
}

/// Upper-case hexadecimal digit.
pub open spec fn hex_digit(n: int) -> char {
    if n < 10 {
        (48 + n) as char
    } else {
        (55 + n) as char
    }
}

/// `encodeURIComponent` on UTF-8 bytes: unreserved bytes as themselves,
/// every other byte as `%XY`.
pub open spec fn uri_encode(b: Seq<u8>) -> Seq<char>
    decreases b.len(),
{
    if b.len() == 0 {
        Seq::empty()
    } else {
        let rest = uri_encode(b.drop_last());
        let x = b.last();
        if is_unreserved(x) {
            rest.push(x as char)
        } else {
            rest + seq!['%', hex_digit(x as int / 16), hex_digit(x as int % 16)]
        }
    }
}

fn hex_char(n: u8) -> (c: char)
    requires
        n < 16,
    ensures
        c == hex_digit(n as int),
{
    if n < 10 {
        (48 + n) as char
    } else {
        (55 + n) as char
    }
}

/// `encodeURIComponent(s)`.
pub fn enc(s: &str) -> (r: String)
    ensures
        r@ == uri_encode(encode_utf8(s@)),
{
    let b = s.as_bytes();
    let mut out = String::new();
    let mut i: usize = 0;
    while i < b.len()
        invariant
            i <= b@.len(),
            b@ == encode_utf8(s@),
            out@ == uri_encode(b@.take(i as int)),
        decreases b@.len() - i,
    {
        assert(b@.take(i + 1).drop_last() == b@.take(i as int));
        assert(b@.take(i + 1).last() == b@[i as int]);
        let x = b[i];
        let unreserved = (x >= 65 && x <= 90) || (x >= 97 && x <= 122) || (x >= 48 && x <= 57)
            || x == 45 || x == 95 || x == 46 || x == 33 || x == 126 || x == 42 || x == 39 || x
            == 40 || x == 41;
        if unreserved {
            crate::text::push_char(&mut out, x as char);
        } else {
            let ghost before = out@;
            crate::text::push_char(&mut out, '%');
            crate::text::push_char(&mut out, hex_char(x / 16));
            crate::text::push_char(&mut out, hex_char(x % 16));
            assert(out@ == before + seq!['%', hex_digit(x as int / 16), hex_digit(x as int % 16)]);
        }
        i = i + 1;
    }
    assert(b@.take(b@.len() as int) == b@);
    out
}

// ---------------------------------------------------------------------------
// Notes listing
// ---------------------------------------------------------------------------

/// Which notes to list: all of them, or those of one repository, kind of
/// reference and number.
#[derive(Debug)]
pub struct Filter {
    pub repo: Option<String>,
    pub ref_type: Option<String>,
    pub ref_number: Option<i64>,
}

impl Default for Filter {
    /// No condition: every note.
    fn default() -> (f: Self)
        ensures
            f.repo is None && f.ref_type is None && f.ref_number is None,
    {
        Filter { repo: None, ref_type: None, ref_number: None }
    }
}

/// One query parameter for an optional string value.
pub open spec fn text_param(name: Seq<char>, v: Option<String>) -> Seq<Seq<char>> {
    match v {
        Some(s) => seq![name + "="@ + uri_encode(encode_utf8(s@))],
        None => Seq::empty(),
    }
}

/// The query parameters of a notes listing, in order.
pub open spec fn notes_query(f: Filter) -> Seq<Seq<char>> {
    text_param("repo"@, f.repo) + text_param("ref_type"@, f.ref_type) + match f.ref_number {
        Some(n) => seq!["ref_number="@ + decimal(n as int)],
        None => Seq::empty(),
    }
}

/// The path of a notes listing: `/api/notes`, with `?` and the parameters
/// joined by `&` when there are any.
pub open spec fn notes_path(f: Filter) -> Seq<char> {
    let qs = notes_query(f);
    if qs.len() == 0 {
        "/api/notes"@
    } else {
        "/api/notes?"@ + join(qs, "&"@)
    }
}

fn param(name: &str, v: &str) -> (r: String)
    ensures
        r@ == name@ + "="@ + uri_encode(encode_utf8(v@)),
{
    let mut p = String::new();
    push_str(&mut p, name);
    push_str(&mut p, "=");
    let e = enc(v);
    push_str(&mut p, e.as_str());
    p
}

/// The request path of `notes::list`.
pub fn notes_list_path(filter: &Filter) -> (r: String)
    ensures
        r@ == notes_path(*filter),
{
    let mut qs: Vec<String> = Vec::new();
    if let Some(r) = &filter.repo {
        qs.push(param("repo", r.as_str()));
    }
    if let Some(t) = &filter.ref_type {
        qs.push(param("ref_type", t.as_str()));
    }
    if let Some(n) = filter.ref_number {
        let mut p = String::new();
        push_str(&mut p, "ref_number=");
        push_decimal(&mut p, n);
        qs.push(p);
    }
    let ghost qv = qs@.map_values(|s: String| s@);
    assert(qv =~= notes_query(*filter));
    let mut out = String::new();
    push_str(&mut out, "/api/notes");
    if qs.len() == 0 {
        return out;
    }
    let mut i: usize = 0;
    while i < qs.len()
        invariant
            i <= qs@.len(),
            qs@.len() > 0,
            qv == qs@.map_values(|s: String| s@),
            i == 0 ==> out@ == "/api/notes"@,
            i > 0 ==> out@ == "/api/notes?"@ + join(qv.take(i as int), "&"@),
        decreases qs@.len() - i,
    {
        let ghost before = out@;
        if i == 0 {
            push_str(&mut out, "?");
            push_str(&mut out, qs[i].as_str());
            proof {
                reveal_strlit("/api/notes");
                reveal_strlit("?");
                reveal_strlit("/api/notes?");
                assert(qv.take(1).len() == 1);
                assert(qv.take(1)[0] == qs@[0]@);
                assert(join(qv.take(1), "&"@) == qs@[0]@);
                assert("/api/notes?"@ == "/api/notes"@ + "?"@);
            }
            assert(out@ == "/api/notes?"@ + join(qv.take(1), "&"@));
        } else {
            push_str(&mut out, "&");
            push_str(&mut out, qs[i].as_str());
            assert(qv.take(i + 1).drop_last() == qv.take(i as int));
            assert(qv.take(i + 1).last() == qs@[i as int]@);
            assert(out@ == "/api/notes?"@ + join(qv.take(i + 1), "&"@));
        }
        i = i + 1;
    }
    assert(qv.take(qs@.len() as int) == qv);
    out
}

// ---------------------------------------------------------------------------
// Error messages
// ---------------------------------------------------------------------------

/// What reading `text` as JSON gives for its `error` member: the member's
/// text when `text` is a JSON document whose `error` is a string.
pub uninterp spec fn json_error_member(text: Seq<char>) -> Option<Seq<char>>;

/// `serde_json::from_str::<Value>(text)`, then `.get("error")` and
/// `.as_str()`; its result is named `json_error_member` of the text.
#[verifier::external_body]
fn error_member(text: &str) -> (r: Option<String>)
    ensures
        match r {
            Some(m) => json_error_member(text@) == Some(m@),
            None => json_error_member(text@) is None,
        },
{
    serde_json::from_str::<serde_json::Value>(text)
        .ok()
        .and_then(|v| v.get("error").and_then(|e| e.as_str()).map(String::from))
}

/// The message of a failed request, given the JSON member the body holds
/// under `error` (if any): that member, else the body, else `HTTP <status>`.
pub open spec fn error_message_spec(status: u16, text: Seq<char>, member: Option<Seq<char>>) -> Seq<
    char,
> {
    match member {
        Some(m) => m,
        None => if text.len() == 0 {
            "HTTP "@ + decimal(status as int)
        } else {
            text
        },
    }
}

/// The message for a response with this status and body, given what the
/// body holds under `error`.
pub fn error_message_from(status: u16, text: String, member: Option<String>) -> (r: String)
    ensures
        r@ == error_message_spec(
            status,
            text@,
            match member {
                Some(m) => Some(m@),
                None => None,
            },
        ),
{
    match member {
        Some(m) => m,
        None => {
            if text.as_str().is_empty() {
                let mut s = String::new();
                push_str(&mut s, "HTTP ");
                push_decimal(&mut s, status as i64);
                s
            } else {
                text
            }
        },
    }
}

/// The backend's `{ "error": ... }` message for a failed response, falling
/// back to the body text, or to `HTTP <status>` when the body is empty.
pub fn error_message(status: u16, text: String) -> (r: String)
    ensures
        r@ == error_message_spec(status, text@, json_error_member(text@)),
{
    let member = error_member(text.as_str());
    error_message_from(status, text, member)
}

} // verus!
