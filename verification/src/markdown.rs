//! Markdown → HTML rendering. The rendered HTML is injected into the page as
//! is; the input is private, user-authored note or GitHub content shown only
//! to the local user.
use vstd::prelude::*;
use crate::text::{
    chars_of, contains_seq, find, find_chars_from, matches_at, replace_all, replace_from, replace_str,
    string_of,
};

verus! {

broadcast use vstd::string::group_string_axioms;

/// `Options::ENABLE_TABLES | ENABLE_STRIKETHROUGH | ENABLE_TASKLISTS |
/// ENABLE_FOOTNOTES | ENABLE_GFM` as bits.
pub const GFM_OPTIONS: u32 = 2078u32;

/// `Options::ENABLE_STRIKETHROUGH` as bits.
pub const STRIKETHROUGH_OPTIONS: u32 = 8u32;

/// What `pulldown_cmark::html::push_html` writes into an empty string for
/// the events of `Parser::new_ext(src, options)`, `options` given as bits.
pub uninterp spec fn markdown_html(src: Seq<char>, options: u32) -> Seq<char>;

/// `pulldown_cmark`: parses `src` with the option bits given and renders the
/// events to HTML. The result is named `markdown_html` of the source and the
/// bits; nothing else is claimed about it.
#[verifier::external_body]
fn render_markdown(src: &str, options: u32) -> (r: String)
    ensures
        r@ == markdown_html(src@, options),
{
    let parser = pulldown_cmark::Parser::new_ext(
        src,
        pulldown_cmark::Options::from_bits_truncate(options),
    );
    let mut out = String::new();
    pulldown_cmark::html::push_html(&mut out, parser);
    out
}

/// Renders GitHub-flavoured Markdown (tables, strikethrough, task lists,
/// footnotes, GFM blockquote tags).
pub fn to_html(src: &str) -> (r: String)
    ensures
        r@ == markdown_html(src@, GFM_OPTIONS),
{
    render_markdown(src, GFM_OPTIONS)
}

pub open spec fn plain_anchor() -> Seq<char> {
    "<a href="@
}

pub open spec fn blank_anchor() -> Seq<char> {
    "<a target=\"_blank\" rel=\"noopener noreferrer\" href="@
}

/// Characters that the rewrite copies from the text are the text's own: a
/// prefix of the rewritten text from `i` on that holds no `<` stands in the
/// text at `i`, since every inserted anchor starts with `<`.
proof fn lemma_copied_prefix(h: Seq<char>, i: int, s: Seq<char>)
    requires
        0 <= i <= h.len(),
        !s.contains('<'),
        s.len() <= replace_from(h, plain_anchor(), blank_anchor(), i).len(),
        replace_from(h, plain_anchor(), blank_anchor(), i).take(s.len() as int) == s,
    ensures
        i + s.len() <= h.len(),
        h.subrange(i, i + s.len()) == s,
    decreases s.len(),
{
    reveal_strlit("<a href=");
    reveal_strlit("<a target=\"_blank\" rel=\"noopener noreferrer\" href=");
    let p = plain_anchor();
    let r = blank_anchor();
    let out = replace_from(h, p, r, i);
    if s.len() == 0 {
        assert(h.subrange(i, i) =~= s);
    } else if i >= h.len() {
        assert(out.len() == 0);
    } else if matches_at(h, p, i) {
        assert(out[0] == r[0]);
        assert(s[0] == out.take(s.len() as int)[0]);
        assert(s.contains(s[0]));
    } else {
        let rest = replace_from(h, p, r, i + 1);
        assert(out == seq![h[i]] + rest);
        let s1 = s.drop_first();
        assert forall|c: char| s1.contains(c) implies s.contains(c) by {
            let k = choose|k: int| 0 <= k < s1.len() && s1[k] == c;
            assert(s[k + 1] == c);
        }
        assert(rest.take(s1.len() as int) =~= s1) by {
            assert forall|k: int| 0 <= k < s1.len() implies rest[k] == s1[k] by {
                assert(out[k + 1] == rest[k]);
                assert(out.take(s.len() as int)[k + 1] == s[k + 1]);
            }
        }
        lemma_copied_prefix(h, i + 1, s1);
        assert(out.take(s.len() as int)[0] == s[0]);
        assert(h.subrange(i, i + s.len()) =~= seq![h[i]] + h.subrange(i + 1, i + 1 + s1.len()));
        assert(h.subrange(i, i + s.len()) =~= s);
    }
}

/// The rewrite leaves no plain anchor behind: whatever the HTML, no
/// `<a href=` occurs in it once every one has been given the new-tab
/// attributes.
pub proof fn lemma_blank_links_leave_no_plain_anchor(html: Seq<char>, i: int)
    requires
        0 <= i,
    ensures
        !contains_seq(replace_from(html, plain_anchor(), blank_anchor(), i), plain_anchor()),
    decreases html.len() - i,
{
    reveal_strlit("<a href=");
    reveal_strlit("<a target=\"_blank\" rel=\"noopener noreferrer\" href=");
    let p = plain_anchor();
    let r = blank_anchor();
    let out = replace_from(html, p, r, i);
    if i >= html.len() {
        assert(out.len() == 0);
    } else if matches_at(html, p, i) {
        let rest = replace_from(html, p, r, i + p.len());
        lemma_blank_links_leave_no_plain_anchor(html, i + p.len());
        assert(out == r + rest);
        assert forall|k: int| !matches_at(out, p, k) by {
            if matches_at(out, p, k) {
                if k >= r.len() {
                    assert(rest.subrange(k - r.len(), k - r.len() + p.len()) =~= out.subrange(
                        k,
                        k + p.len(),
                    ));
                    assert(matches_at(rest, p, k - r.len()));
                } else {
                    assert(out.subrange(k, k + p.len())[0] == out[k]);
                    assert(out[k] == r[k]);
                    if k > 0 {
                        assert(r[k] != '<');
                    } else {
                        assert(out.subrange(k, k + p.len())[3] == r[3]);
                    }
                }
            }
        }
    } else {
        let rest = replace_from(html, p, r, i + 1);
        lemma_blank_links_leave_no_plain_anchor(html, i + 1);
        assert(out == seq![html[i]] + rest);
        assert forall|k: int| !matches_at(out, p, k) by {
            if matches_at(out, p, k) {
                if k >= 1 {
                    assert(rest.subrange(k - 1, k - 1 + p.len()) =~= out.subrange(k, k + p.len()));
                    assert(matches_at(rest, p, k - 1));
                } else {
                    let s = p.drop_first();
                    assert(!s.contains('<')) by {
                        assert forall|k: int| 0 <= k < s.len() implies s[k] != '<' by {}
                    }
                    assert(rest.take(s.len() as int) =~= s) by {
                        assert forall|k: int| 0 <= k < s.len() implies rest[k] == s[k] by {
                            assert(out[k + 1] == rest[k]);
                            assert(out.subrange(0, p.len() as int)[k + 1] == p[k + 1]);
                        }
                    }
                    lemma_copied_prefix(html, i + 1, s);
                    assert(out.subrange(0, p.len() as int)[0] == p[0]);
                    assert(out[0] == html[i]);
                    assert forall|k: int| 0 <= k < p.len() implies html.subrange(i, i + p.len())[k]
                        == p[k] by {
                        if k > 0 {
                            assert(html.subrange(i + 1, i + 1 + s.len())[k - 1] == s[k - 1]);
                        }
                    }
                    assert(html.subrange(i, i + p.len()) =~= p);
                }
            }
        }
    }
}

/// Like [`to_html`] but forces every link to open in a new tab. pulldown-cmark
/// emits anchors as `<a href="…">`, so we inject the target/rel attributes.
pub fn to_html_blank_links(src: &str) -> (r: String)
    ensures
        r@ == replace_all(markdown_html(src@, GFM_OPTIONS), plain_anchor(), blank_anchor()),
        !contains_seq(r@, plain_anchor()),
{
    let html = to_html(src);
    proof {
        reveal_strlit("<a href=");
        lemma_blank_links_leave_no_plain_anchor(html@, 0);
    }
    replace_str(
        html.as_str(),
        "<a href=",
        "<a target=\"_blank\" rel=\"noopener noreferrer\" href=",
    )
}

/// `src` with every `<!-- … -->` comment removed; an unterminated comment
/// runs to the end of the text.
pub open spec fn strip_comments(s: Seq<char>) -> Seq<char>
    decreases s.len(),
{
    match find(s, "<!--"@) {
        None => s,
        Some(i) => {
            let tail = s.subrange(i, s.len() as int);
            match find(tail, "-->"@) {
                Some(j) => if i + j + 3 <= s.len() && i + j + 3 > 0 {
                    s.take(i) + strip_comments(s.subrange(i + j + 3, s.len() as int))
                } else {
                    s.take(i)
                },
                None => s.take(i),
            }
        },
    }
}

/// `src` with its HTML comments removed.
pub fn strip_html_comments(src: &str) -> (r: String)
    ensures
        r@ == strip_comments(src@),
{
    let cs = chars_of(src);
    let open = ['<', '!', '-', '-'];
    let close = ['-', '-', '>'];
    proof {
        reveal_strlit("<!--");
        reveal_strlit("-->");
        assert(open@ == "<!--"@);
        assert(close@ == "-->"@);
    }
    let mut out: Vec<char> = Vec::new();
    let mut pos: usize = 0;
    assert(cs@.subrange(0, cs@.len() as int) == cs@);
    while pos <= cs.len()
        invariant
            pos <= cs@.len(),
            cs@ == src@,
            open@ == "<!--"@,
            close@ == "-->"@,
            out@ + strip_comments(cs@.subrange(pos as int, cs@.len() as int)) == strip_comments(cs@),
        decreases cs@.len() - pos,
    {
        let ghost rest = cs@.subrange(pos as int, cs@.len() as int);
        let rest_v = crate::text::slice_range(cs.as_slice(), pos, cs.len());
        match find_chars_from(rest_v.as_slice(), &open, 0) {
            None => {
                let mut k: usize = 0;
                let ghost before = out@;
                while k < rest_v.len()
                    invariant
                        k <= rest_v@.len(),
                        out@ == before + rest_v@.take(k as int),
                    decreases rest_v@.len() - k,
                {
                    out.push(rest_v[k]);
                    k = k + 1;
                    assert(out@ == before + rest_v@.take(k as int));
                }
                assert(rest_v@.take(rest_v@.len() as int) == rest_v@);
                assert(rest_v@ == rest);
                assert(strip_comments(rest) == rest);
                assert(out@ == before + rest);
                assert(out@ == strip_comments(cs@));
                return string_of(out.as_slice());
            },
            Some(start) => {
                proof {
                    crate::text::lemma_find_from(rest, "<!--"@, 0);
                }
                let ghost before = out@;
                let mut k: usize = 0;
                while k < start
                    invariant
                        k <= start,
                        start <= rest_v@.len(),
                        out@ == before + rest_v@.take(k as int),
                    decreases start - k,
                {
                    out.push(rest_v[k]);
                    k = k + 1;
                    assert(out@ == before + rest_v@.take(k as int));
                }
                let tail = crate::text::slice_range(rest_v.as_slice(), start, rest_v.len());
                match find_chars_from(tail.as_slice(), &close, 0) {
                    Some(end) => {
                        proof {
                            crate::text::lemma_find_from(tail@, "-->"@, 0);
                        }
                        let next = pos + start + end + 3;
                        assert(cs@.subrange(next as int, cs@.len() as int) == rest.subrange(
                            start + end + 3,
                            rest.len() as int,
                        ));
                        pos = next;
                    },
                    None => {
                        assert(rest_v@ == rest);
                        assert(tail@ == rest.subrange(start as int, rest.len() as int));
                        assert(strip_comments(rest) == rest.take(start as int));
                        return string_of(out.as_slice());
                    },
                }
            },
        }
    }
    string_of(out.as_slice())
}

/// Strip HTML comments before rendering (the detail panel does this for GitHub
/// issue/PR bodies which often contain `<!-- ... -->` template comments).
pub fn to_html_stripped_comments(src: &str) -> (r: String)
    ensures
        r@ == markdown_html(strip_comments(src@), GFM_OPTIONS),
{
    let cleaned = strip_html_comments(src);
    to_html(cleaned.as_str())
}

/// The calendar's note renderer: strikethrough only, links opening in a new
/// tab.
pub fn md_to_html(text: &str) -> (r: String)
    ensures
        r@ == replace_all(markdown_html(text@, STRIKETHROUGH_OPTIONS), plain_anchor(), blank_anchor()),
{
    let html = render_markdown(text, STRIKETHROUGH_OPTIONS);
    proof {
        reveal_strlit("<a href=");
    }
    replace_str(
        html.as_str(),
        "<a href=",
        "<a target=\"_blank\" rel=\"noopener noreferrer\" href=",
    )
}

} // verus!
