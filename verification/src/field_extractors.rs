//! Field extractors: for a column whose values are JSON objects, which
//! sub-field(s) to display. `"name|login"` tries `name` first and falls back
//! to `login`.
use vstd::prelude::*;
use crate::json::{entries_lookup, entry_lookup, Json, JsonNumber};
use crate::text::{chars_of, push_chars, push_str, string_from, string_of, trim, trim_chars};
use crate::text_map::TextMap;
use vstd::string::StringSliceAdditionalSpecFns;

verus! {

broadcast use vstd::string::group_string_axioms;

/// The built-in extractors.
pub open spec fn default_extractor(column: Seq<char>) -> Option<Seq<char>> {
    if column == "author"@ {
        Some("login"@)
    } else if column == "repository"@ {
        Some("nameWithOwner"@)
    } else if column == "assignees"@ {
        Some("name|login"@)
    } else {
        None
    }
}

pub fn default_field_extractors() -> (m: TextMap<String>)
    ensures
        forall|k: Seq<char>| #[trigger] m.view().contains_key(k) <==> default_extractor(k) is Some,
        forall|k: Seq<char>| #[trigger] m.view().contains_key(k) ==> Some(m.view()[k]@)
            == default_extractor(k),
{
    let mut m = TextMap::new();
    let v0 = string_from("login");
    let v1 = string_from("nameWithOwner");
    let v2 = string_from("name|login");
    let ghost (g0, g1, g2) = (v0, v1, v2);
    m.insert(string_from("author"), v0);
    m.insert(string_from("repository"), v1);
    m.insert(string_from("assignees"), v2);
    proof {
        reveal_strlit("author");
        reveal_strlit("repository");
        reveal_strlit("assignees");
        let mv = m.view();
        assert(mv == Map::<Seq<char>, String>::empty().insert("author"@, g0).insert(
            "repository"@,
            g1,
        ).insert("assignees"@, g2));
        assert forall|k: Seq<char>| #[trigger] mv.contains_key(k) implies Some(mv[k]@)
            == default_extractor(k) by {
            assert("author"@[0] == 'a' && "author"@[1] == 'u');
            assert("repository"@[0] == 'r');
            assert("assignees"@[0] == 'a' && "assignees"@[1] == 's');
        }
    }
    m
}

// ---------------------------------------------------------------------------
// Plain text of a value
// ---------------------------------------------------------------------------

/// A scalar JSON value as a plain string (no quotes for strings); objects and
/// arrays fall back to compact JSON.
pub open spec fn plain_text(v: Json) -> Seq<char> {
    match v {
        Json::Null => Seq::empty(),
        Json::Str(s) => s@,
        Json::Bool(b) => if b {
            "true"@
        } else {
            "false"@
        },
        Json::Number(n) => n.text@,
        Json::Array { compact, .. } => compact@,
        Json::Object { compact, .. } => compact@,
    }
}

/// A scalar JSON value as a plain string (no quotes for strings); objects/arrays
/// fall back to compact JSON.
pub fn value_to_plain(val: &Json) -> (r: String)
    ensures
        r@ == plain_text(*val),
{
    match val {
        Json::Null => String::new(),
        Json::Str(s) => s.clone(),
        Json::Bool(b) => if *b {
            string_from("true")
        } else {
            string_from("false")
        },
        Json::Number(n) => n.text.clone(),
        Json::Array { compact, .. } => compact.clone(),
        Json::Object { compact, .. } => compact.clone(),
    }
}

// ---------------------------------------------------------------------------
// Splitting on a separator
// ---------------------------------------------------------------------------

/// `str::split(sep)`: the pieces between separators, empty pieces included.
pub open spec fn split_on(s: Seq<char>, sep: char) -> Seq<Seq<char>>
    decreases s.len(),
{
    if s.len() == 0 {
        seq![Seq::empty()]
    } else {
        let rest = split_on(s.drop_last(), sep);
        if s.last() == sep {
            rest.push(Seq::empty())
        } else {
            rest.update(rest.len() - 1, rest.last().push(s.last()))
        }
    }
}

pub proof fn lemma_split_on_nonempty(s: Seq<char>, sep: char)
    ensures
        split_on(s, sep).len() >= 1,
    decreases s.len(),
{
    if s.len() > 0 {
        lemma_split_on_nonempty(s.drop_last(), sep);
    }
}

pub open spec fn pieces_view(v: Seq<Vec<char>>) -> Seq<Seq<char>> {
    v.map_values(|p: Vec<char>| p@)
}

/// `s.split(sep)` as character vectors.
pub fn split_chars(s: &[char], sep: char) -> (r: Vec<Vec<char>>)
    ensures
        pieces_view(r@) == split_on(s@, sep),
{
    let mut done: Vec<Vec<char>> = Vec::new();
    let mut cur: Vec<char> = Vec::new();
    let mut i: usize = 0;
    while i < s.len()
        invariant
            i <= s@.len(),
            pieces_view(done@).push(cur@) == split_on(s@.take(i as int), sep),
        decreases s@.len() - i,
    {
        proof {
            lemma_split_on_nonempty(s@.take(i as int), sep);
        }
        assert(s@.take(i + 1).drop_last() == s@.take(i as int));
        assert(s@.take(i + 1).last() == s@[i as int]);
        if s[i] == sep {
            let ghost old_done = done@;
            let ghost old_cur = cur@;
            let finished = cur;
            done.push(finished);
            cur = Vec::new();
            assert(pieces_view(done@) =~= pieces_view(old_done).push(old_cur));
        } else {
            let ghost old_cur = cur@;
            cur.push(s[i]);
            assert(pieces_view(done@).push(cur@) =~= pieces_view(done@).push(old_cur).update(
                pieces_view(done@).len() as int,
                old_cur.push(s@[i as int]),
            ));
        }
        i = i + 1;
    }
    assert(s@.take(s@.len() as int) == s@);
    let ghost old_done = done@;
    done.push(cur);
    assert(pieces_view(done@) =~= pieces_view(old_done).push(cur@));
    done
}

// ---------------------------------------------------------------------------
// pick_field / extract_display
// ---------------------------------------------------------------------------

/// The first of `fields` (each trimmed) present in the object with a
/// non-empty plain value; empty if none.
pub open spec fn pick_from(entries: Seq<(String, Json)>, fields: Seq<Seq<char>>) -> Seq<char>
    decreases fields.len(),
{
    if fields.len() == 0 {
        Seq::empty()
    } else {
        match entry_lookup(entries, trim(fields[0])) {
            Some(v) => if plain_text(v).len() > 0 {
                plain_text(v)
            } else {
                pick_from(entries, fields.drop_first())
            },
            None => pick_from(entries, fields.drop_first()),
        }
    }
}

/// What an extractor such as `"name|login"` picks from an object.
pub open spec fn pick_field_spec(entries: Seq<(String, Json)>, extractor: Seq<char>) -> Seq<char> {
    pick_from(entries, split_on(extractor, '|'))
}

pub fn pick_field(obj: &Vec<(String, Json)>, extractor: &str) -> (r: String)
    ensures
        r@ == pick_field_spec(obj@, extractor@),
{
    let ec = chars_of(extractor);
    let fields = split_chars(ec.as_slice(), '|');
    let ghost fv = pieces_view(fields@);
    let mut i: usize = 0;
    assert(fv.skip(0) == fv);
    while i < fields.len()
        invariant
            fv == pieces_view(fields@),
            i <= fields@.len(),
            pick_field_spec(obj@, extractor@) == pick_from(obj@, fv.skip(i as int)),
        decreases fields@.len() - i,
    {
        assert(fv.skip(i as int)[0] == fields@[i as int]@);
        assert(fv.skip(i as int).drop_first() == fv.skip(i + 1));
        let name = trim_chars(fields[i].as_slice());
        let key = string_of(name.as_slice());
        match entries_lookup(obj, key.as_str()) {
            Some(val) => {
                let s = value_to_plain(val);
                if !s.as_str().is_empty() {
                    return s;
                }
            },
            None => {},
        }
        i = i + 1;
    }
    String::new()
}

/// How one array element is shown.
pub open spec fn item_display(item: Json, ex: Option<Seq<char>>) -> Seq<char> {
    match item {
        Json::Object { entries, compact, .. } => match ex {
            Some(e) => pick_field_spec(entries@, e),
            None => compact@,
        },
        Json::Array { compact, .. } => compact@,
        _ => plain_text(item),
    }
}

/// The non-empty shown forms of the elements, in order.
pub open spec fn array_parts(items: Seq<Json>, ex: Option<Seq<char>>) -> Seq<Seq<char>>
    decreases items.len(),
{
    if items.len() == 0 {
        Seq::empty()
    } else {
        let rest = array_parts(items.drop_last(), ex);
        let d = item_display(items.last(), ex);
        if d.len() > 0 {
            rest.push(d)
        } else {
            rest
        }
    }
}

/// `parts.join(sep)`.
pub open spec fn join(parts: Seq<Seq<char>>, sep: Seq<char>) -> Seq<char>
    decreases parts.len(),
{
    if parts.len() == 0 {
        Seq::empty()
    } else if parts.len() == 1 {
        parts[0]
    } else {
        join(parts.drop_last(), sep) + sep + parts.last()
    }
}

/// What a table cell shows for a value under an optional extractor.
pub open spec fn extract_display_spec(val: Json, ex: Option<Seq<char>>) -> Seq<char> {
    match val {
        Json::Null => Seq::empty(),
        Json::Array { items, .. } => if items@.len() == 0 {
            Seq::empty()
        } else {
            join(array_parts(items@, ex), ", "@)
        },
        Json::Object { entries, compact, .. } => match ex {
            Some(e) => {
                let r = pick_field_spec(entries@, e);
                if r.len() > 0 {
                    r
                } else {
                    compact@
                }
            },
            None => compact@,
        },
        _ => plain_text(val),
    }
}

pub open spec fn opt_str_view(o: Option<&str>) -> Option<Seq<char>> {
    match o {
        Some(s) => Some(s@),
        None => None,
    }
}

fn item_display_exec(item: &Json, ex: Option<&str>) -> (r: String)
    ensures
        r@ == item_display(*item, opt_str_view(ex)),
{
    match item {
        Json::Object { entries, compact, .. } => match ex {
            Some(e) => pick_field(entries, e),
            None => compact.clone(),
        },
        Json::Array { compact, .. } => compact.clone(),
        _ => value_to_plain(item),
    }
}

pub fn extract_display(val: &Json, extractor: Option<&str>) -> (r: String)
    ensures
        r@ == extract_display_spec(*val, opt_str_view(extractor)),
{
    match val {
        Json::Null => String::new(),
        Json::Array { items, .. } => {
            if items.len() == 0 {
                return String::new();
            }
            let ghost ex = opt_str_view(extractor);
            let mut out = String::new();
            let mut count: usize = 0;
            let mut i: usize = 0;
            while i < items.len()
                invariant
                    ex == opt_str_view(extractor),
                    i <= items@.len(),
                    count == array_parts(items@.take(i as int), ex).len(),
                    count <= i,
                    out@ == join(array_parts(items@.take(i as int), ex), ", "@),
                decreases items@.len() - i,
            {
                let d = item_display_exec(&items[i], extractor);
                assert(items@.take(i + 1).drop_last() == items@.take(i as int));
                assert(items@.take(i + 1).last() == items@[i as int]);
                if !d.as_str().is_empty() {
                    let ghost parts = array_parts(items@.take(i as int), ex);
                    if count > 0 {
                        push_str(&mut out, ", ");
                    }
                    push_str(&mut out, d.as_str());
                    proof {
                        let np = parts.push(d@);
                        assert(np.drop_last() == parts);
                        if parts.len() == 0 {
                            assert(out@ == np[0]);
                        }
                    }
                    count = count + 1;
                }
                i = i + 1;
            }
            assert(items@.take(items@.len() as int) == items@);
            out
        },
        Json::Object { entries, compact, .. } => {
            if let Some(ex) = extractor {
                let result = pick_field(entries, ex);
                if !result.as_str().is_empty() {
                    return result;
                }
            }
            compact.clone()
        },
        _ => value_to_plain(val),
    }
}

// ---------------------------------------------------------------------------
// Timestamps
// ---------------------------------------------------------------------------

pub open spec fn is_digit_byte(b: u8) -> bool {
    48 <= b <= 57
}

/// Matches `^\d{4}-\d{2}-\d{2}T\d{2}:\d{2}` on the bytes of the string.
pub open spec fn is_datetime_bytes(b: Seq<u8>) -> bool {
    &&& b.len() >= 16
    &&& is_digit_byte(b[0]) && is_digit_byte(b[1]) && is_digit_byte(b[2]) && is_digit_byte(b[3])
    &&& b[4] == 45
    &&& is_digit_byte(b[5]) && is_digit_byte(b[6])
    &&& b[7] == 45
    &&& is_digit_byte(b[8]) && is_digit_byte(b[9])
    &&& b[10] == 84
    &&& is_digit_byte(b[11]) && is_digit_byte(b[12])
    &&& b[13] == 58
    &&& is_digit_byte(b[14]) && is_digit_byte(b[15])
}

/// Matches `^\d{4}-\d{2}-\d{2}T\d{2}:\d{2}`.
pub fn is_datetime_string(s: &str) -> (r: bool)
    ensures
        r == is_datetime_bytes(s.spec_bytes()),
{
    let b = s.as_bytes();
    if b.len() < 16 {
        return false;
    }
    let d = |i: usize| -> (r: bool)
        requires
            i < b@.len(),
        ensures
            r == is_digit_byte(b@[i as int]),
        { b[i] >= 48 && b[i] <= 57 };
    d(0) && d(1) && d(2) && d(3) && b[4] == 45 && d(5) && d(6) && b[7] == 45 && d(8) && d(9)
        && b[10] == 84 && d(11) && d(12) && b[13] == 58 && d(14) && d(15)
}

/// `js_sys::Date::new(s).toLocaleDateString("en-US", { year: "numeric",
/// month: "short", day: "numeric" })`, read back with `as_string`. What it
/// gives depends on the browser's locale data and time zone, so nothing is
/// claimed of it.
#[verifier::external_body]
fn locale_date_only(s: &str) -> (r: Option<String>) {
    let date = js_sys::Date::new(&wasm_bindgen::JsValue::from_str(s));
    let opts = js_sys::Object::new();
    let _ = js_sys::Reflect::set(&opts, &"year".into(), &"numeric".into());
    let _ = js_sys::Reflect::set(&opts, &"month".into(), &"short".into());
    let _ = js_sys::Reflect::set(&opts, &"day".into(), &"numeric".into());
    date.to_locale_date_string("en-US", &opts).as_string()
}

/// `js_sys::Date::new(s).toLocaleDateString("en-US", {})`, read back with
/// `as_string`. What it gives depends on the browser's locale data and time
/// zone, so nothing is claimed of it.
#[verifier::external_body]
fn locale_date_short(s: &str) -> (r: Option<String>) {
    let date = js_sys::Date::new(&wasm_bindgen::JsValue::from_str(s));
    let opts = js_sys::Object::new();
    date.to_locale_date_string("en-US", &opts).as_string()
}

/// The text the browser gave for a date, or the cell text itself when it
/// gave none.
pub fn date_text_or(s: &str, shown: Option<String>) -> (r: String)
    ensures
        r@ == match shown {
            Some(t) => t@,
            None => s@,
        },
{
    match shown {
        Some(t) => t,
        None => string_from(s),
    }
}

/// A cell's date as the browser shows it, `Sep 7, 2026`-style; the text
/// itself when the browser gives back no string.
pub fn format_date_only(s: &str) -> (r: String) {
    let shown = locale_date_only(s);
    date_text_or(s, shown)
}

/// A note timestamp as the browser's short local date; the text itself when
/// the browser gives back no string.
pub fn format_date_short(s: &str) -> (r: String) {
    let shown = locale_date_short(s);
    date_text_or(s, shown)
}

} // verus!
