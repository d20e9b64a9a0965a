//! Release watches: tags of a watched repository, newest version first, and
//! the order of the watches.
use vstd::prelude::*;
use crate::field_extractors::{split_chars, split_on};
use crate::gh_query::strings_view;
use crate::json::{json_as_str, json_get, Json};
use crate::text::{chars_of, parse_u64, parse_u64_chars, slice_range};

verus! {

broadcast use vstd::string::group_string_axioms;

/// `(major, minor, patch, is_release)`.
pub type VersionKey = (u64, u64, u64, bool);

/// `s` without its leading `v`/`V` characters.
pub open spec fn strip_v(s: Seq<char>) -> Seq<char>
    decreases s.len(),
{
    if s.len() > 0 && (s[0] == 'v' || s[0] == 'V') {
        strip_v(s.drop_first())
    } else {
        s
    }
}

pub open spec fn is_suffix_sep(c: char) -> bool {
    c == '-' || c == '+'
}

/// The first index at or after `i` holding `-` or `+`.
pub open spec fn suffix_start_from(s: Seq<char>, i: int) -> Option<int>
    decreases s.len() - i,
{
    if i < 0 || i >= s.len() {
        None
    } else if is_suffix_sep(s[i]) {
        Some(i)
    } else {
        suffix_start_from(s, i + 1)
    }
}

/// `parts[i].parse::<u64>()`, or 0 when the part is missing or no number.
pub open spec fn part_value(parts: Seq<Seq<char>>, i: int) -> u64 {
    if 0 <= i < parts.len() {
        match parse_u64(parts[i]) {
            Some(v) => v,
            None => 0,
        }
    } else {
        0
    }
}

/// The sort key of a tag: without its leading `v`s, the version is what
/// comes before the first `-` or `+`; its first three dot-separated parts are
/// major, minor and patch. A `-` there starts a pre-release suffix, which
/// ranks the tag below the release; a `+` starts build metadata, which is
/// ignored.
pub open spec fn semver_key_spec(tag: Seq<char>) -> VersionKey {
    let s = strip_v(tag);
    let version = match suffix_start_from(s, 0) {
        Some(i) => s.take(i),
        None => s,
    };
    let parts = split_on(version, '.');
    let is_release = match suffix_start_from(s, 0) {
        Some(i) => s[i] != '-',
        None => true,
    };
    (part_value(parts, 0), part_value(parts, 1), part_value(parts, 2), is_release)
}

fn part_at(parts: &Vec<Vec<char>>, i: usize) -> (r: u64)
    ensures
        r == part_value(parts@.map_values(|p: Vec<char>| p@), i as int),
{
    if i < parts.len() {
        match parse_u64_chars(parts[i].as_slice()) {
            Some(v) => v,
            None => 0,
        }
    } else {
        0
    }
}

/// The `(major, minor, patch, is_release)` key that orders release tags.
pub fn semver_key(tag: &str) -> (k: VersionKey)
    ensures
        k == semver_key_spec(tag@),
{
    let cs = chars_of(tag);
    let mut a: usize = 0;
    assert(cs@.skip(0) == cs@);
    while a < cs.len() && (cs[a] == 'v' || cs[a] == 'V')
        invariant
            a <= cs@.len(),
            strip_v(cs@) == strip_v(cs@.skip(a as int)),
        decreases cs@.len() - a,
    {
        assert(cs@.skip(a as int).drop_first() == cs@.skip(a + 1));
        a = a + 1;
    }
    let s = slice_range(cs.as_slice(), a, cs.len());
    assert(s@ == cs@.skip(a as int));
    assert(strip_v(s@) == s@);
    let mut i: usize = 0;
    while i < s.len() && !(s[i] == '-' || s[i] == '+')
        invariant
            i <= s@.len(),
            suffix_start_from(s@, 0) == suffix_start_from(s@, i as int),
        decreases s@.len() - i,
    {
        i = i + 1;
    }
    let is_pre = i < s.len() && s[i] == '-';
    let version = slice_range(s.as_slice(), 0, i);
    assert(version@ == (match suffix_start_from(s@, 0) {
        Some(j) => s@.take(j),
        None => s@,
    }));
    let parts = split_chars(version.as_slice(), '.');
    (part_at(&parts, 0), part_at(&parts, 1), part_at(&parts, 2), !is_pre)
}

/// `a > b` in the tuple order (`false < true` for the last place).
pub open spec fn key_gt(a: VersionKey, b: VersionKey) -> bool {
    ||| a.0 > b.0
    ||| a.0 == b.0 && a.1 > b.1
    ||| a.0 == b.0 && a.1 == b.1 && a.2 > b.2
    ||| a.0 == b.0 && a.1 == b.1 && a.2 == b.2 && a.3 && !b.3
}

fn key_gt_exec(a: VersionKey, b: VersionKey) -> (r: bool)
    ensures
        r == key_gt(a, b),
{
    a.0 > b.0 || (a.0 == b.0 && a.1 > b.1) || (a.0 == b.0 && a.1 == b.1 && a.2 > b.2) || (a.0
        == b.0 && a.1 == b.1 && a.2 == b.2 && a.3 && !b.3)
}

/// Where a stable newest-first sort puts `t` among the already sorted tags:
/// after every tag whose key is not smaller than its own.
pub open spec fn insert_pos(sorted: Seq<Seq<char>>, t: Seq<char>) -> int
    decreases sorted.len(),
{
    if sorted.len() == 0 {
        0
    } else if key_gt(semver_key_spec(t), semver_key_spec(sorted.last())) {
        insert_pos(sorted.drop_last(), t)
    } else {
        sorted.len() as int
    }
}

/// The tags sorted by key, newest first, tags with equal keys kept in their
/// given order (`sort_by` with the reversed key comparison).
pub open spec fn sort_newest_first(tags: Seq<Seq<char>>) -> Seq<Seq<char>>
    decreases tags.len(),
{
    if tags.len() == 0 {
        Seq::empty()
    } else {
        let s = sort_newest_first(tags.drop_last());
        s.insert(insert_pos(s, tags.last()), tags.last())
    }
}

proof fn lemma_insert_pos_bounds(s: Seq<Seq<char>>, t: Seq<char>)
    ensures
        0 <= insert_pos(s, t) <= s.len(),
    decreases s.len(),
{
    if s.len() > 0 {
        lemma_insert_pos_bounds(s.drop_last(), t);
    }
}

/// The tags in newest-first order.
pub fn sort_tags(tags: &Vec<String>) -> (r: Vec<String>)
    ensures
        strings_view(r@) == sort_newest_first(strings_view(tags@)),
{
    let ghost tv = strings_view(tags@);
    let mut out: Vec<String> = Vec::new();
    let mut keys: Vec<VersionKey> = Vec::new();
    let mut i: usize = 0;
    while i < tags.len()
        invariant
            i <= tags@.len(),
            tv == strings_view(tags@),
            keys@.len() == out@.len(),
            out@.len() == i,
            forall|j: int| 0 <= j < out@.len() ==> keys@[j] == semver_key_spec(#[trigger] out@[j]@),
            strings_view(out@) == sort_newest_first(tv.take(i as int)),
        decreases tags@.len() - i,
    {
        assert(tv.take(i + 1).drop_last() == tv.take(i as int));
        assert(tv.take(i + 1).last() == tags@[i as int]@);
        let ghost sv = strings_view(out@);
        let t = tags[i].clone();
        let k = semver_key(t.as_str());
        let mut p: usize = out.len();
        proof {
            lemma_insert_pos_bounds(sv, t@);
        }
        assert(sv.take(p as int) == sv);
        while p > 0 && key_gt_exec(k, keys[p - 1])
            invariant
                p <= out@.len(),
                keys@.len() == out@.len(),
                sv == strings_view(out@),
                k == semver_key_spec(t@),
                forall|j: int| 0 <= j < out@.len() ==> keys@[j] == semver_key_spec(#[trigger] out@[j]@),
                insert_pos(sv, t@) == insert_pos(sv.take(p as int), t@),
            decreases p,
        {
            assert(sv.take(p as int).last() == out@[p - 1]@);
            assert(sv.take(p as int).drop_last() == sv.take(p - 1));
            p = p - 1;
        }
        proof {
            if p > 0 {
                assert(sv.take(p as int).last() == out@[p - 1]@);
            }
            assert(insert_pos(sv.take(p as int), t@) == p);
        }
        let ghost before = out@;
        out.insert(p, t);
        keys.insert(p, k);
        assert(strings_view(out@) =~= sv.insert(p as int, tags@[i as int]@));
        assert forall|j: int| 0 <= j < out@.len() implies keys@[j] == semver_key_spec(
            #[trigger] out@[j]@,
        ) by {
            if j < p {
                assert(out@[j] == before[j]);
            } else if j > p {
                assert(out@[j] == before[j - 1]);
            }
        }
        i = i + 1;
    }
    assert(tv.take(tags@.len() as int) == tv);
    out
}

/// Keys never increase along the newest-first order.
pub open spec fn newest_first(s: Seq<Seq<char>>) -> bool {
    forall|i: int, j: int|
        0 <= i < j < s.len() ==> !key_gt(semver_key_spec(#[trigger] s[j]), semver_key_spec(#[trigger] s[i]))
}

/// The newest-first order is sorted by key and holds exactly the given tags.
pub proof fn lemma_sort_newest_first(tags: Seq<Seq<char>>)
    ensures
        newest_first(sort_newest_first(tags)),
        sort_newest_first(tags).to_multiset() == tags.to_multiset(),
    decreases tags.len(),
{
    broadcast use vstd::seq_lib::group_to_multiset_ensures;

    if tags.len() > 0 {
        let s = sort_newest_first(tags.drop_last());
        let t = tags.last();
        lemma_sort_newest_first(tags.drop_last());
        lemma_insert_pos_bounds(s, t);
        lemma_insert_keeps_order(s, t);
        vstd::seq_lib::to_multiset_insert(s, insert_pos(s, t), t);
        vstd::seq_lib::to_multiset_build(tags.drop_last(), t);
        assert(tags.drop_last().push(t) == tags);
    }
}

proof fn lemma_insert_keeps_order(s: Seq<Seq<char>>, t: Seq<char>)
    requires
        newest_first(s),
    ensures
        newest_first(s.insert(insert_pos(s, t), t)),
    decreases s.len(),
{
    lemma_insert_pos_bounds(s, t);
    let p = insert_pos(s, t);
    let r = s.insert(p, t);
    let kt = semver_key_spec(t);
    if s.len() > 0 && key_gt(kt, semver_key_spec(s.last())) {
        let d = s.drop_last();
        assert(newest_first(d));
        lemma_insert_keeps_order(d, t);
        assert(insert_pos(s, t) == insert_pos(d, t));
        lemma_insert_pos_bounds(d, t);
        let rd = d.insert(p, t);
        assert(r =~= rd.push(s.last()));
        assert forall|i: int, j: int| 0 <= i < j < r.len() implies !key_gt(
            semver_key_spec(#[trigger] r[j]),
            semver_key_spec(#[trigger] r[i]),
        ) by {
            if j == r.len() - 1 {
                let kl = semver_key_spec(s.last());
                if i == p {
                    assert(r[i] == t);
                } else if i < p {
                    assert(r[i] == s[i]);
                    assert(!key_gt(kl, semver_key_spec(s[i])));
                } else {
                    assert(r[i] == s[i - 1]);
                    assert(!key_gt(kl, semver_key_spec(s[i - 1])));
                }
            } else {
                assert(r[i] == rd[i]);
                assert(r[j] == rd[j]);
            }
        }
    } else {
        assert(p == s.len());
        assert(r == s.push(t));
        assert forall|i: int, j: int| 0 <= i < j < r.len() implies !key_gt(
            semver_key_spec(#[trigger] r[j]),
            semver_key_spec(#[trigger] r[i]),
        ) by {
            if j == r.len() - 1 && s.len() > 0 {
                assert(r[i] == s[i]);
                if i < s.len() - 1 {
                    assert(!key_gt(semver_key_spec(s.last()), semver_key_spec(s[i])));
                }
            }
        }
    }
}

/// The `tagName` of each release in the output of `gh release list`, in order.
pub open spec fn tag_names_spec(items: Seq<Json>) -> Seq<Seq<char>>
    decreases items.len(),
{
    if items.len() == 0 {
        Seq::empty()
    } else {
        let rest = tag_names_spec(items.drop_last());
        match json_get(items.last(), "tagName"@) {
            Some(v) => match json_as_str(v) {
                Some(s) => rest.push(s),
                None => rest,
            },
            None => rest,
        }
    }
}

/// The tag names in the output of `gh release list --json tagName`, newest
/// version first; nothing when the output is not an array.
pub fn release_tags(output: &Json) -> (r: Vec<String>)
    ensures
        strings_view(r@) == match *output {
            Json::Array { items, .. } => sort_newest_first(tag_names_spec(items@)),
            _ => Seq::empty(),
        },
{
    let items = match output {
        Json::Array { items, .. } => items,
        _ => return Vec::new(),
    };
    let mut names: Vec<String> = Vec::new();
    let mut i: usize = 0;
    while i < items.len()
        invariant
            i <= items@.len(),
            strings_view(names@) == tag_names_spec(items@.take(i as int)),
        decreases items@.len() - i,
    {
        assert(items@.take(i + 1).drop_last() == items@.take(i as int));
        assert(items@.take(i + 1).last() == items@[i as int]);
        if let Some(v) = items[i].get("tagName") {
            if let Some(s) = v.as_str() {
                let ghost before = names@;
                names.push(s.clone());
                assert(strings_view(names@) =~= strings_view(before).push(s@));
            }
        }
        i = i + 1;
    }
    assert(items@.take(items@.len() as int) == items@);
    sort_tags(&names)
}

// ---------------------------------------------------------------------------
// Order of the release watches
// ---------------------------------------------------------------------------

/// The first position at or after `i` holding `x`.
pub open spec fn index_from(s: Seq<i64>, x: i64, i: int) -> Option<int>
    decreases s.len() - i,
{
    if i < 0 || i >= s.len() {
        None
    } else if s[i] == x {
        Some(i)
    } else {
        index_from(s, x, i + 1)
    }
}

/// `s` with positions `i` and `j` swapped.
pub open spec fn swap_spec(s: Seq<i64>, i: int, j: int) -> Seq<i64> {
    s.update(i, s[j]).update(j, s[i])
}

/// The watch order after moving watch `id` one place up; `None` when it is
/// not listed or already first (nothing is saved then).
pub open spec fn move_up_spec(ids: Seq<i64>, id: i64) -> Option<Seq<i64>> {
    match index_from(ids, id, 0) {
        Some(i) => if i > 0 {
            Some(swap_spec(ids, i, i - 1))
        } else {
            None
        },
        None => None,
    }
}

/// The watch order after moving watch `id` one place down; `None` when it
/// is not listed or already last.
pub open spec fn move_down_spec(ids: Seq<i64>, id: i64) -> Option<Seq<i64>> {
    match index_from(ids, id, 0) {
        Some(i) => if i + 1 < ids.len() {
            Some(swap_spec(ids, i, i + 1))
        } else {
            None
        },
        None => None,
    }
}

proof fn lemma_index_from(s: Seq<i64>, x: i64, i: int)
    requires
        0 <= i,
    ensures
        index_from(s, x, i) matches Some(k) ==> i <= k < s.len() && s[k] == x,
    decreases s.len() - i,
{
    if i < s.len() && s[i] != x {
        lemma_index_from(s, x, i + 1);
    }
}

fn position_of(ids: &Vec<i64>, id: i64) -> (r: Option<usize>)
    ensures
        match r {
            Some(k) => index_from(ids@, id, 0) == Some(k as int),
            None => index_from(ids@, id, 0) is None,
        },
{
    let mut i: usize = 0;
    while i < ids.len()
        invariant
            i <= ids@.len(),
            index_from(ids@, id, 0) == index_from(ids@, id, i as int),
        decreases ids@.len() - i,
    {
        if ids[i] == id {
            return Some(i);
        }
        i = i + 1;
    }
    None
}

/// Moves a release watch one place up in the list of watch ids.
pub fn move_watch_up(ids: &Vec<i64>, id: i64) -> (r: Option<Vec<i64>>)
    ensures
        match r {
            Some(v) => move_up_spec(ids@, id) == Some(v@),
            None => move_up_spec(ids@, id) is None,
        },
{
    match position_of(ids, id) {
        Some(i) => {
            proof {
                lemma_index_from(ids@, id, 0);
            }
            if i > 0 {
                let mut v = ids.clone();
                let a = v[i];
                let b = v[i - 1];
                v.set(i, b);
                v.set(i - 1, a);
                assert(v@ =~= swap_spec(ids@, i as int, i - 1));
                Some(v)
            } else {
                None
            }
        },
        None => None,
    }
}

/// Moves a release watch one place down in the list of watch ids.
pub fn move_watch_down(ids: &Vec<i64>, id: i64) -> (r: Option<Vec<i64>>)
    ensures
        match r {
            Some(v) => move_down_spec(ids@, id) == Some(v@),
            None => move_down_spec(ids@, id) is None,
        },
{
    match position_of(ids, id) {
        Some(i) => {
            proof {
                lemma_index_from(ids@, id, 0);
            }
            if i < ids.len() - 1 {
                let mut v = ids.clone();
                let a = v[i];
                let b = v[i + 1];
                v.set(i, b);
                v.set(i + 1, a);
                assert(v@ =~= swap_spec(ids@, i as int, i + 1));
                Some(v)
            } else {
                None
            }
        },
        None => None,
    }
}

/// Moving a watch down and then up again gives back the order it had (ids
/// listed once each).
pub proof fn lemma_move_down_then_up(ids: Seq<i64>, id: i64)
    requires
        forall|a: int, b: int| 0 <= a < b < ids.len() ==> ids[a] != ids[b],
        move_down_spec(ids, id) is Some,
    ensures
        move_up_spec(move_down_spec(ids, id)->0, id) == Some(ids),
{
    lemma_index_from(ids, id, 0);
    let i = index_from(ids, id, 0)->0;
    let t = swap_spec(ids, i, i + 1);
    assert(t[i + 1] == id);
    assert forall|j: int| 0 <= j < i + 1 implies t[j] != id by {
        if j < i {
            assert(ids[j] != ids[i]);
        } else {
            assert(ids[i + 1] != ids[i]);
        }
    }
    lemma_index_from_first(t, id, 0, i + 1);
    assert(swap_spec(t, i + 1, i) =~= ids);
}

proof fn lemma_index_from_first(s: Seq<i64>, x: i64, i: int, k: int)
    requires
        0 <= i <= k < s.len(),
        s[k] == x,
        forall|j: int| i <= j < k ==> s[j] != x,
    ensures
        index_from(s, x, i) == Some(k),
    decreases k - i,
{
    if i < k {
        lemma_index_from_first(s, x, i + 1, k);
    }
}

} // verus!
