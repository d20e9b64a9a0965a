//! The two forms of the Slack status update: the summary form is the
//! detailed form without the indented item lines under each release.
use vstd::prelude::*;
use crate::text::{is_ws, starts_with, trim, trim_end, trim_start};
use crate::types::{GroupWithItems, WarRoomItem};
use crate::war_room::{
    bullet_line, emoji_for, group_text, index_lookup, items_text, slack_groups,
    slack_item_label_spec, slack_update_spec, split_product_version_spec, rfind_ws, IndexEntry,
};

verus! {

broadcast use vstd::string::group_string_axioms;

/// `s` holds no line break.
pub open spec fn no_newline(s: Seq<char>) -> bool {
    forall|i: int| 0 <= i < s.len() ==> s[i] != '\n'
}

/// How an item line under a release starts.
pub open spec fn item_line_prefix() -> Seq<char> {
    "    - "@
}

/// The number of characters before the first line break of `s` (all of
/// them when it has none).
pub open spec fn newline_pos(s: Seq<char>) -> nat
    decreases s.len(),
{
    if s.len() == 0 || s[0] == '\n' {
        0
    } else {
        1 + newline_pos(s.drop_first())
    }
}

/// The length of the first line of `s`, its line break included.
pub open spec fn first_line_len(s: Seq<char>) -> int {
    if newline_pos(s) < s.len() {
        newline_pos(s) + 1int
    } else {
        s.len() as int
    }
}

/// `s` without the lines that start with [`item_line_prefix`].
pub open spec fn drop_item_lines(s: Seq<char>) -> Seq<char>
    decreases s.len(),
{
    if s.len() == 0 {
        Seq::empty()
    } else {
        let n = first_line_len(s);
        let line = s.take(n);
        (if starts_with(line, item_line_prefix()) {
            Seq::empty()
        } else {
            line
        }) + drop_item_lines(s.skip(n))
    }
}

proof fn lemma_newline_pos_after(x: Seq<char>, y: Seq<char>)
    requires
        no_newline(x),
    ensures
        newline_pos(x + y) == x.len() + newline_pos(y),
    decreases x.len(),
{
    if x.len() == 0 {
        assert(x + y =~= y);
    } else {
        assert((x + y)[0] == x[0]);
        assert((x + y).drop_first() =~= x.drop_first() + y);
        lemma_newline_pos_after(x.drop_first(), y);
    }
}

proof fn lemma_newline_pos_at_most(s: Seq<char>, k: int)
    requires
        0 <= k < s.len(),
        s[k] == '\n',
    ensures
        newline_pos(s) <= k,
    decreases k,
{
    if k > 0 && s[0] != '\n' {
        assert(s.drop_first()[k - 1] == s[k]);
        lemma_newline_pos_at_most(s.drop_first(), k - 1);
    }
}

proof fn lemma_newline_pos_prefix(a: Seq<char>, b: Seq<char>)
    requires
        newline_pos(a) < a.len(),
    ensures
        newline_pos(a + b) == newline_pos(a),
    decreases a.len(),
{
    assert((a + b)[0] == a[0]);
    if a[0] != '\n' {
        assert((a + b).drop_first() =~= a.drop_first() + b);
        lemma_newline_pos_prefix(a.drop_first(), b);
    }
}

/// Filtering lines distributes over texts joined at a line boundary.
proof fn lemma_drop_append(a: Seq<char>, b: Seq<char>)
    requires
        a.len() == 0 || a.last() == '\n',
    ensures
        drop_item_lines(a + b) == drop_item_lines(a) + drop_item_lines(b),
    decreases a.len(),
{
    if a.len() == 0 {
        assert(a + b =~= b);
        assert(drop_item_lines(a) + drop_item_lines(b) =~= drop_item_lines(b));
    } else {
        lemma_newline_pos_at_most(a, a.len() - 1);
        lemma_newline_pos_prefix(a, b);
        let n = first_line_len(a);
        assert(first_line_len(a + b) == n);
        assert((a + b).take(n) =~= a.take(n));
        let rest = a.skip(n);
        assert((a + b).skip(n) =~= rest + b);
        if rest.len() > 0 {
            assert(rest.last() == a.last());
        }
        lemma_drop_append(rest, b);
        let keep = if starts_with(a.take(n), item_line_prefix()) {
            Seq::<char>::empty()
        } else {
            a.take(n)
        };
        assert(drop_item_lines(a + b) == keep + drop_item_lines(rest + b));
        assert(drop_item_lines(a) == keep + drop_item_lines(rest));
        assert(keep + (drop_item_lines(rest) + drop_item_lines(b)) =~= (keep + drop_item_lines(rest))
            + drop_item_lines(b));
    }
}

/// One whole line followed by more text: the line stays or goes by its
/// start, and the rest is filtered on its own.
proof fn lemma_drop_line(x: Seq<char>, rest: Seq<char>)
    requires
        no_newline(x),
    ensures
        drop_item_lines(x.push('\n') + rest) == (if starts_with(x.push('\n'), item_line_prefix()) {
            Seq::empty()
        } else {
            x.push('\n')
        }) + drop_item_lines(rest),
{
    let l = x.push('\n');
    assert(l =~= x + seq!['\n']);
    lemma_newline_pos_after(x, seq!['\n']);
    assert(first_line_len(l) == l.len());
    assert(l.take(l.len() as int) =~= l);
    assert(l.skip(l.len() as int) =~= Seq::<char>::empty());
    assert(drop_item_lines(Seq::<char>::empty()) == Seq::<char>::empty());
    let keep = if starts_with(l, item_line_prefix()) {
        Seq::<char>::empty()
    } else {
        l
    };
    assert(drop_item_lines(l) == keep + drop_item_lines(Seq::<char>::empty()));
    assert(drop_item_lines(l) =~= keep);
    lemma_drop_append(l, rest);
}

proof fn lemma_no_newline_concat(a: Seq<char>, b: Seq<char>)
    requires
        no_newline(a),
        no_newline(b),
    ensures
        no_newline(a + b),
{
    assert forall|i: int| 0 <= i < (a + b).len() implies (a + b)[i] != '\n' by {
        if i < a.len() {
            assert((a + b)[i] == a[i]);
        } else {
            assert((a + b)[i] == b[i - a.len()]);
        }
    }
}

proof fn lemma_no_newline_sub(s: Seq<char>, i: int, j: int)
    requires
        no_newline(s),
        0 <= i <= j <= s.len(),
    ensures
        no_newline(s.subrange(i, j)),
{
    assert forall|k: int| 0 <= k < j - i implies s.subrange(i, j)[k] != '\n' by {
        assert(s.subrange(i, j)[k] == s[i + k]);
    }
}

proof fn lemma_trim_start_parts(s: Seq<char>)
    ensures
        exists|k: int| 0 <= k <= s.len() && trim_start(s) == s.subrange(k, s.len() as int),
        trim_start(s).len() > 0 ==> !is_ws(trim_start(s)[0]),
    decreases s.len(),
{
    if s.len() > 0 && is_ws(s[0]) {
        lemma_trim_start_parts(s.drop_first());
        let k = choose|k: int|
            0 <= k <= s.drop_first().len() && trim_start(s.drop_first()) == s.drop_first().subrange(
                k,
                s.drop_first().len() as int,
            );
        assert(s.drop_first().subrange(k, s.drop_first().len() as int) =~= s.subrange(
            k + 1,
            s.len() as int,
        ));
    } else {
        assert(s.subrange(0, s.len() as int) =~= s);
    }
}

proof fn lemma_trim_end_parts(s: Seq<char>)
    ensures
        exists|k: int| 0 <= k <= s.len() && trim_end(s) == s.take(k),
        trim_end(s).len() > 0 ==> trim_end(s)[0] == s[0],
    decreases s.len(),
{
    if s.len() > 0 && is_ws(s.last()) {
        lemma_trim_end_parts(s.drop_last());
        let k = choose|k: int|
            0 <= k <= s.drop_last().len() && trim_end(s.drop_last()) == s.drop_last().take(k);
        assert(s.drop_last().take(k) =~= s.take(k));
    } else {
        assert(s.take(s.len() as int) =~= s);
    }
}

/// `trim` keeps a part of the text, and what it keeps does not start with
/// whitespace.
proof fn lemma_trim_parts(s: Seq<char>)
    ensures
        no_newline(s) ==> no_newline(trim(s)),
        trim(s).len() > 0 ==> !is_ws(trim(s)[0]),
{
    lemma_trim_start_parts(s);
    let ts = trim_start(s);
    let k = choose|k: int| 0 <= k <= s.len() && ts == s.subrange(k, s.len() as int);
    lemma_trim_end_parts(ts);
    let j = choose|j: int| 0 <= j <= ts.len() && trim_end(ts) == ts.take(j);
    if no_newline(s) {
        lemma_no_newline_sub(s, k, s.len() as int);
        lemma_no_newline_sub(ts, 0, j);
    }
}

proof fn lemma_rfind_ws_range(s: Seq<char>)
    ensures
        rfind_ws(s) matches Some(p) ==> 0 <= p < s.len(),
    decreases s.len(),
{
    if s.len() > 0 && !is_ws(s.last()) {
        lemma_rfind_ws_range(s.drop_last());
    }
}

/// Neither part of a group name split into product and version holds a
/// line break when the name holds none; the product starts with no
/// whitespace.
proof fn lemma_split_parts(name: Seq<char>)
    ensures
        ({
            let (product, version) = split_product_version_spec(name);
            &&& no_newline(name) ==> no_newline(product)
            &&& no_newline(name) ==> (version matches Some(v) ==> no_newline(v))
            &&& product.len() > 0 ==> !is_ws(product[0])
        }),
{
    let t = trim(name);
    lemma_trim_parts(name);
    match rfind_ws(t) {
        Some(p) => {
            lemma_rfind_ws_range(t);
            let tail = t.subrange(p + 1, t.len() as int);
            lemma_trim_parts(tail);
            lemma_trim_parts(t.take(p));
            if no_newline(name) {
                lemma_no_newline_sub(t, p + 1, t.len() as int);
                lemma_no_newline_sub(t, 0, p);
            }
        },
        None => {},
    }
}

/// `s` is empty or ends with a line break.
pub open spec fn ends_line(s: Seq<char>) -> bool {
    s.len() == 0 || s.last() == '\n'
}

/// The indent of the item lines under a release.
pub open spec fn item_indent() -> Seq<char> {
    "    "@
}

proof fn lemma_bullet(indent: Seq<char>, e: Seq<char>, lbl: Seq<char>, note: Seq<char>, rest: Seq<char>)
    requires
        indent == item_indent() || indent == Seq::<char>::empty(),
        no_newline(e),
        no_newline(lbl),
        no_newline(note),
    ensures
        bullet_line(indent, e, lbl, note).len() > 0,
        bullet_line(indent, e, lbl, note).last() == '\n',
        drop_item_lines(bullet_line(indent, e, lbl, note) + rest) == (if indent == item_indent() {
            Seq::empty()
        } else {
            bullet_line(indent, e, lbl, note)
        }) + drop_item_lines(rest),
{
    reveal_strlit("    ");
    reveal_strlit("    - ");
    reveal_strlit("- ");
    reveal_strlit(" ");
    reveal_strlit("\n");
    reveal_strlit(" (");
    reveal_strlit(")\n");
    let tail: Seq<char> = if note.len() == 0 {
        Seq::empty()
    } else {
        " ("@ + note + ")"@
    };
    reveal_strlit(")");
    let x = indent + "- "@ + e + " "@ + lbl + tail;
    let b = bullet_line(indent, e, lbl, note);
    assert(b =~= x.push('\n'));
    assert(no_newline(indent));
    assert(no_newline("- "@));
    assert(no_newline(" "@));
    assert(no_newline(" ("@));
    assert(no_newline(")"@));
    lemma_no_newline_concat(indent, "- "@);
    lemma_no_newline_concat(indent + "- "@, e);
    lemma_no_newline_concat(indent + "- "@ + e, " "@);
    lemma_no_newline_concat(indent + "- "@ + e + " "@, lbl);
    if note.len() > 0 {
        lemma_no_newline_concat(" ("@, note);
        lemma_no_newline_concat(" ("@ + note, ")"@);
    }
    lemma_no_newline_concat(indent + "- "@ + e + " "@ + lbl, tail);
    lemma_drop_line(x, rest);
    if indent == item_indent() {
        assert(b.subrange(0, 6) =~= item_line_prefix());
    } else {
        assert(b[0] == '-');
        if b.len() >= 6 {
            assert(b.subrange(0, 6)[0] != item_line_prefix()[0]);
        }
    }
}

/// Under either indent, the item bullets are whole lines: with the release
/// indent they all go, without it they all stay.
proof fn lemma_items_lines(items: Seq<WarRoomItem>, idx: Seq<IndexEntry>, em: Map<Seq<char>, String>)
    requires
        forall|i: int|
            0 <= i < items.len() ==> no_newline(slack_item_label_spec(#[trigger] items[i], idx))
                && no_newline(trim(items[i].note@)),
        forall|st: Seq<char>| no_newline(#[trigger] emoji_for(em, st)),
    ensures
        ends_line(items_text(items, idx, em, item_indent())),
        ends_line(items_text(items, idx, em, Seq::empty())),
        drop_item_lines(items_text(items, idx, em, item_indent())) == Seq::<char>::empty(),
        drop_item_lines(items_text(items, idx, em, Seq::empty())) == items_text(
            items,
            idx,
            em,
            Seq::empty(),
        ),
    decreases items.len(),
{
    if items.len() == 0 {
        assert(drop_item_lines(Seq::<char>::empty()) == Seq::<char>::empty());
    } else {
        let prev = items.drop_last();
        assert forall|i: int| 0 <= i < prev.len() implies no_newline(
            slack_item_label_spec(#[trigger] prev[i], idx),
        ) && no_newline(trim(prev[i].note@)) by {
            assert(prev[i] == items[i]);
        }
        lemma_items_lines(prev, idx, em);
        let it = items.last();
        assert(it == items[items.len() - 1]);
        let e = emoji_for(em, crate::war_room::effective_stage_spec(it, idx));
        let lbl = slack_item_label_spec(it, idx);
        let note = trim(it.note@);
        let empty = Seq::<char>::empty();
        reveal_strlit("    ");
        assert(item_indent().len() == 4);
        assert(empty != item_indent());
        lemma_bullet(item_indent(), e, lbl, note, empty);
        lemma_bullet(empty, e, lbl, note, empty);
        assert(bullet_line(item_indent(), e, lbl, note) + empty =~= bullet_line(item_indent(), e, lbl, note));
        assert(bullet_line(empty, e, lbl, note) + empty =~= bullet_line(empty, e, lbl, note));
        assert(drop_item_lines(empty) == empty);
        let a = items_text(prev, idx, em, item_indent());
        let c = items_text(prev, idx, em, empty);
        lemma_drop_append(a, bullet_line(item_indent(), e, lbl, note));
        lemma_drop_append(c, bullet_line(empty, e, lbl, note));
        assert(empty + empty =~= empty);
        assert(drop_item_lines(bullet_line(empty, e, lbl, note)) == bullet_line(empty, e, lbl, note) + empty);
    }
}

/// A line `x` + `:` + line break stays when `x` does not start like an item
/// line.
proof fn lemma_colon_line(x: Seq<char>, rest: Seq<char>)
    requires
        no_newline(x),
        !starts_with(x, item_line_prefix()),
    ensures
        drop_item_lines((x + ":\n"@) + rest) == (x + ":\n"@) + drop_item_lines(rest),
{
    reveal_strlit(":\n");
    reveal_strlit(":");
    reveal_strlit("    - ");
    let x1 = x + ":"@;
    assert(x + ":\n"@ =~= x1.push('\n'));
    assert(no_newline(":"@));
    lemma_no_newline_concat(x, ":"@);
    lemma_drop_line(x1, rest);
    let b = x1.push('\n');
    let p = item_line_prefix();
    if starts_with(b, p) {
        if x.len() >= 6 {
            assert(x.subrange(0, 6) =~= b.subrange(0, 6));
        } else {
            assert(b[x.len() as int] == ':');
            assert(b.subrange(0, 6)[x.len() as int] == p[x.len() as int]);
        }
    }
}

/// A release line under an optional product header, followed by `sub`
/// whose lines all go: what stays is the header and the release line.
proof fn lemma_release_lines(
    with_header: bool,
    product: Seq<char>,
    emoji: Seq<char>,
    ver: Seq<char>,
    sub: Seq<char>,
)
    requires
        no_newline(product),
        product.len() > 0 ==> !is_ws(product[0]),
        no_newline(emoji),
        no_newline(ver),
        ends_line(sub),
        drop_item_lines(sub) == Seq::<char>::empty(),
    ensures
        ({
            let header = if with_header {
                "\n"@ + product + ":\n"@
            } else {
                Seq::empty()
            };
            let text = header + "- "@ + emoji + " "@ + ver + "\n"@;
            &&& drop_item_lines(text + sub) == text
            &&& (text + sub).len() > 0
            &&& (text + sub).last() == '\n'
        }),
{
    reveal_strlit("\n");
    reveal_strlit(":\n");
    reveal_strlit("- ");
    reveal_strlit(" ");
    reveal_strlit("    - ");
    let empty = Seq::<char>::empty();
    let header = if with_header {
        "\n"@ + product + ":\n"@
    } else {
        empty
    };
    let x2 = "- "@ + emoji + " "@ + ver;
    let l2 = x2.push('\n');
    assert(header + "- "@ + emoji + " "@ + ver + "\n"@ =~= header + l2);
    assert(no_newline("- "@));
    assert(no_newline(" "@));
    lemma_no_newline_concat("- "@, emoji);
    lemma_no_newline_concat("- "@ + emoji, " "@);
    lemma_no_newline_concat("- "@ + emoji + " "@, ver);
    assert(l2[0] == '-');
    assert(!starts_with(l2, item_line_prefix())) by {
        if l2.len() >= 6 {
            assert(l2.subrange(0, 6)[0] == l2[0]);
        }
    }
    lemma_drop_line(x2, sub);
    assert(drop_item_lines(l2 + sub) =~= l2);
    if with_header {
        assert(!starts_with(product, item_line_prefix())) by {
            if product.len() >= 6 {
                assert(product.subrange(0, 6)[0] == product[0]);
            }
        }
        lemma_colon_line(product, l2 + sub);
        assert(no_newline(empty));
        lemma_drop_line(empty, (product + ":\n"@) + (l2 + sub));
        assert(!starts_with(empty.push('\n'), item_line_prefix()));
        assert((header + l2) + sub =~= empty.push('\n') + ((product + ":\n"@) + (l2 + sub)));
        assert(empty.push('\n') + ((product + ":\n"@) + l2) =~= header + l2);
    } else {
        assert((header + l2) + sub =~= l2 + sub);
        assert(header + l2 =~= l2);
    }
    if sub.len() > 0 {
        assert(((header + l2) + sub).last() == sub.last());
    } else {
        assert((header + l2) + sub =~= header + l2);
    }
}

/// A header line for `name` followed by item lines that all stay.
proof fn lemma_plain_group_lines(name: Seq<char>, items: Seq<char>)
    requires
        no_newline(name),
        !starts_with(name, item_line_prefix()),
        ends_line(items),
        drop_item_lines(items) == items,
    ensures
        drop_item_lines("\n"@ + name + ":\n"@ + items) == "\n"@ + name + ":\n"@ + items,
        ("\n"@ + name + ":\n"@ + items).len() > 0,
        ("\n"@ + name + ":\n"@ + items).last() == '\n',
{
    reveal_strlit("\n");
    reveal_strlit(":\n");
    reveal_strlit("    - ");
    let empty = Seq::<char>::empty();
    let t = "\n"@ + name + ":\n"@ + items;
    assert(t =~= empty.push('\n') + ((name + ":\n"@) + items));
    lemma_colon_line(name, items);
    assert(no_newline(empty));
    lemma_drop_line(empty, (name + ":\n"@) + items);
    assert(!starts_with(empty.push('\n'), item_line_prefix()));
    if items.len() > 0 {
        assert(t.last() == items.last());
    }
}

/// The text one group adds: in the detailed form without its item lines
/// under a release it is the summary form's text.
proof fn lemma_group_lines(
    g: GroupWithItems,
    idx: Seq<IndexEntry>,
    em: Map<Seq<char>, String>,
    last_header: Option<Seq<char>>,
)
    requires
        no_newline(g.group.name@),
        !starts_with(g.group.name@, item_line_prefix()),
        forall|i: int|
            0 <= i < g.items@.len() ==> no_newline(slack_item_label_spec(#[trigger] g.items@[i], idx))
                && no_newline(trim(g.items@[i].note@)),
        forall|st: Seq<char>| no_newline(#[trigger] emoji_for(em, st)),
    ensures
        group_text(g, idx, em, true, last_header).1 == group_text(g, idx, em, false, last_header).1,
        group_text(g, idx, em, true, last_header).0.len() > 0,
        group_text(g, idx, em, true, last_header).0.last() == '\n',
        drop_item_lines(group_text(g, idx, em, true, last_header).0) == group_text(
            g,
            idx,
            em,
            false,
            last_header,
        ).0,
{
    let name = g.group.name@;
    let items = g.items@;
    let empty = Seq::<char>::empty();
    lemma_items_lines(items, idx, em);
    lemma_split_parts(name);
    let (product, version) = split_product_version_spec(name);
    match version {
        Some(ver) => {
            let emoji = match crate::war_room::group_rollup_spec(
                crate::war_room::item_stages(items, idx),
            ) {
                Some(st) => emoji_for(em, st),
                None => empty,
            };
            let sub = items_text(items, idx, em, item_indent());
            lemma_release_lines(last_header != Some(product), product, emoji, ver, sub);
            lemma_release_lines(last_header != Some(product), product, emoji, ver, empty);
            let header = if last_header != Some(product) {
                "\n"@ + product + ":\n"@
            } else {
                empty
            };
            let text = header + "- "@ + emoji + " "@ + ver + "\n"@;
            assert(text + empty =~= text);
        },
        None => {
            lemma_plain_group_lines(name, items_text(items, idx, em, empty));
        },
    }
}


proof fn lemma_groups_lines(
    groups: Seq<GroupWithItems>,
    idx: Seq<IndexEntry>,
    em: Map<Seq<char>, String>,
    last_header: Option<Seq<char>>,
)
    requires
        forall|k: int|
            0 <= k < groups.len() ==> {
                let g = #[trigger] groups[k];
                &&& no_newline(g.group.name@)
                &&& !starts_with(g.group.name@, item_line_prefix())
                &&& forall|i: int|
                    0 <= i < g.items@.len() ==> no_newline(
                        slack_item_label_spec(#[trigger] g.items@[i], idx),
                    ) && no_newline(trim(g.items@[i].note@))
            },
        forall|st: Seq<char>| no_newline(#[trigger] emoji_for(em, st)),
    ensures
        ends_line(slack_groups(groups, idx, em, true, last_header)),
        drop_item_lines(slack_groups(groups, idx, em, true, last_header)) == slack_groups(
            groups,
            idx,
            em,
            false,
            last_header,
        ),
    decreases groups.len(),
{
    if groups.len() == 0 {
        assert(drop_item_lines(Seq::<char>::empty()) == Seq::<char>::empty());
    } else {
        let g = groups[0];
        lemma_group_lines(g, idx, em, last_header);
        let (t, h) = group_text(g, idx, em, true, last_header);
        let rest = groups.drop_first();
        assert forall|k: int| 0 <= k < rest.len() implies {
            let g = #[trigger] rest[k];
            &&& no_newline(g.group.name@)
            &&& !starts_with(g.group.name@, item_line_prefix())
            &&& forall|i: int|
                0 <= i < g.items@.len() ==> no_newline(
                    slack_item_label_spec(#[trigger] g.items@[i], idx),
                ) && no_newline(trim(g.items@[i].note@))
        } by {
            assert(rest[k] == groups[k + 1]);
        }
        lemma_groups_lines(rest, idx, em, h);
        let r = slack_groups(rest, idx, em, true, h);
        lemma_drop_append(t, r);
        if r.len() > 0 {
            assert((t + r).last() == r.last());
        } else {
            assert(t + r =~= t);
        }
    }
}

proof fn lemma_lookup_is_entry(e: Seq<IndexEntry>, id: i64)
    ensures
        index_lookup(e, id) matches Some(x) ==> exists|k: int| 0 <= k < e.len() && e[k] == x,
    decreases e.len(),
{
    if e.len() > 0 {
        if e.last().id == id {
            assert(e[e.len() - 1] == e.last());
        } else {
            lemma_lookup_is_entry(e.drop_last(), id);
            if let Some(x) = index_lookup(e.drop_last(), id) {
                let k = choose|k: int| 0 <= k < e.drop_last().len() && e.drop_last()[k] == x;
                assert(e[k] == x);
            }
        }
    }
}

/// The summary form of the Slack update is the detailed form without the
/// indented item lines under each release, whenever no line break hides in
/// the room name, the group names, the item labels and notes, the labels
/// and group names of the index, or the stage emojis, and no group name
/// itself starts like an item line.
pub proof fn lemma_summary_drops_item_lines(
    room_name: Seq<char>,
    groups: Seq<GroupWithItems>,
    idx: Seq<IndexEntry>,
    em: Map<Seq<char>, String>,
)
    requires
        no_newline(room_name),
        forall|k: int|
            0 <= k < groups.len() ==> {
                let g = #[trigger] groups[k];
                &&& no_newline(g.group.name@)
                &&& !starts_with(g.group.name@, item_line_prefix())
                &&& forall|i: int|
                    0 <= i < g.items@.len() ==> no_newline((#[trigger] g.items@[i]).label@)
                        && no_newline(g.items@[i].note@)
            },
        forall|k: int|
            0 <= k < idx.len() ==> no_newline((#[trigger] idx[k]).group_name@) && no_newline(
                idx[k].item.label@,
            ),
        forall|s: Seq<char>| #[trigger] em.contains_key(s) ==> no_newline(em[s]@),
    ensures
        drop_item_lines(slack_update_spec(room_name, groups, idx, em, true)) == slack_update_spec(
            room_name,
            groups,
            idx,
            em,
            false,
        ),
{
    reveal_strlit("Here is the latest status on ");
    reveal_strlit(":\n");
    reveal_strlit(" / ");
    reveal_strlit("    - ");
    assert forall|st: Seq<char>| no_newline(#[trigger] emoji_for(em, st)) by {}
    assert(no_newline(" / "@));
    assert forall|k: int| 0 <= k < groups.len() implies {
        let g = #[trigger] groups[k];
        &&& no_newline(g.group.name@)
        &&& !starts_with(g.group.name@, item_line_prefix())
        &&& forall|i: int|
            0 <= i < g.items@.len() ==> no_newline(
                slack_item_label_spec(#[trigger] g.items@[i], idx),
            ) && no_newline(trim(g.items@[i].note@))
    } by {
        let g = groups[k];
        assert forall|i: int| 0 <= i < g.items@.len() implies no_newline(
            slack_item_label_spec(#[trigger] g.items@[i], idx),
        ) && no_newline(trim(g.items@[i].note@)) by {
            let it = g.items@[i];
            lemma_trim_parts(it.note@);
            if let Some(sid) = it.source_item_id {
                lemma_lookup_is_entry(idx, sid);
                if let Some(x) = index_lookup(idx, sid) {
                    let j = choose|j: int| 0 <= j < idx.len() && idx[j] == x;
                    assert(no_newline(idx[j].group_name@));
                    lemma_no_newline_concat(x.group_name@, " / "@);
                    lemma_no_newline_concat(x.group_name@ + " / "@, x.item.label@);
                }
            }
        }
    }
    lemma_groups_lines(groups, idx, em, None);
    let head = "Here is the latest status on "@ + room_name;
    assert(no_newline("Here is the latest status on "@));
    lemma_no_newline_concat("Here is the latest status on "@, room_name);
    let body_t = slack_groups(groups, idx, em, true, None);
    assert(!starts_with(head, item_line_prefix())) by {
        assert(head[0] == 'H');
        assert(head.subrange(0, 6)[0] == head[0]);
    }
    lemma_colon_line(head, body_t);
    assert(slack_update_spec(room_name, groups, idx, em, true) =~= (head + ":\n"@) + body_t);
    assert(slack_update_spec(room_name, groups, idx, em, false) =~= (head + ":\n"@) + slack_groups(
        groups,
        idx,
        em,
        false,
        None,
    ));
}

/// The header line that names a product in the Slack update.
pub open spec fn product_header(product: Seq<char>) -> Seq<char> {
    "\n"@ + product + ":\n"@
}

/// A group with a version whose product is not the header in force starts
/// its text with its product header.
proof fn lemma_group_writes_header(
    g: GroupWithItems,
    idx: Seq<IndexEntry>,
    em: Map<Seq<char>, String>,
    details: bool,
    last_header: Option<Seq<char>>,
)
    requires
        split_product_version_spec(g.group.name@).1 is Some,
        last_header != Some(split_product_version_spec(g.group.name@).0),
    ensures
        ({
            let hdr = product_header(split_product_version_spec(g.group.name@).0);
            let t = group_text(g, idx, em, details, last_header).0;
            hdr.len() <= t.len() && t.take(hdr.len() as int) == hdr
        }),
{
    let hdr = product_header(split_product_version_spec(g.group.name@).0);
    let t = group_text(g, idx, em, details, last_header).0;
    assert(t.take(hdr.len() as int) =~= hdr);
}

/// The text of `g` followed by the other groups starts with the text of `g`.
proof fn lemma_groups_unfold(
    g: GroupWithItems,
    rest: Seq<GroupWithItems>,
    idx: Seq<IndexEntry>,
    em: Map<Seq<char>, String>,
    details: bool,
    last_header: Option<Seq<char>>,
)
    ensures
        slack_groups(seq![g] + rest, idx, em, details, last_header) == group_text(
            g,
            idx,
            em,
            details,
            last_header,
        ).0 + slack_groups(rest, idx, em, details, group_text(g, idx, em, details, last_header).1),
{
    let s = seq![g] + rest;
    assert(s[0] == g);
    assert(s.drop_first() =~= rest);
}

/// Every release bullet stands under its own product's header: a group with
/// a version writes its product header unless the group just before it was a
/// release of the same product. So after a group without a version (whose
/// own header stands above it), the next release names its product again;
/// and the first group of the update, when it has a version, starts with its
/// product header.
pub proof fn lemma_release_under_its_product(
    g1: GroupWithItems,
    g2: GroupWithItems,
    rest: Seq<GroupWithItems>,
    idx: Seq<IndexEntry>,
    em: Map<Seq<char>, String>,
    details: bool,
    last_header: Option<Seq<char>>,
)
    ensures
        split_product_version_spec(g2.group.name@).1 is Some ==> ({
            let p = split_product_version_spec(g2.group.name@).0;
            let t1 = group_text(g1, idx, em, details, last_header).0;
            let all = slack_groups(seq![g1, g2] + rest, idx, em, details, last_header);
            (split_product_version_spec(g1.group.name@).1 is None || split_product_version_spec(
                g1.group.name@,
            ).0 != p) ==> (t1.len() + product_header(p).len() <= all.len() && all.subrange(
                t1.len() as int,
                (t1.len() + product_header(p).len()) as int,
            ) == product_header(p))
        }),
        split_product_version_spec(g1.group.name@).1 is Some ==> ({
            let p = split_product_version_spec(g1.group.name@).0;
            let all = slack_groups(seq![g1] + rest, idx, em, details, None);
            product_header(p).len() <= all.len() && all.take(product_header(p).len() as int)
                == product_header(p)
        }),
{
    let (t1, h1) = group_text(g1, idx, em, details, last_header);
    assert(seq![g1, g2] + rest =~= seq![g1] + (seq![g2] + rest));
    lemma_groups_unfold(g1, seq![g2] + rest, idx, em, details, last_header);
    lemma_groups_unfold(g2, rest, idx, em, details, h1);
    let (p1, v1) = split_product_version_spec(g1.group.name@);
    let (p2, v2) = split_product_version_spec(g2.group.name@);
    if v2 is Some && (v1 is None || p1 != p2) {
        assert(h1 != Some(p2));
        lemma_group_writes_header(g2, idx, em, details, h1);
        let t2 = group_text(g2, idx, em, details, h1).0;
        let hdr = product_header(p2);
        let all = t1 + (t2 + slack_groups(rest, idx, em, details, group_text(g2, idx, em, details, h1).1));
        assert(all.subrange(t1.len() as int, (t1.len() + hdr.len()) as int) =~= t2.take(
            hdr.len() as int,
        ));
    }
    if v1 is Some {
        lemma_groups_unfold(g1, rest, idx, em, details, None);
        lemma_group_writes_header(g1, idx, em, details, None);
        let u1 = group_text(g1, idx, em, details, None).0;
        let hdr = product_header(p1);
        let all = u1 + slack_groups(rest, idx, em, details, group_text(g1, idx, em, details, None).1);
        assert(all.take(hdr.len() as int) =~= u1.take(hdr.len() as int));
    }
}

} // verus!
