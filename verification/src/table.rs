//! Arranging the rows of a GH Query tile: the hand-kept priority order and
//! its edits (send to top or bottom, drag and drop), column filters, the
//! values offered in a filter dropdown, and the sort controls.
use vstd::prelude::*;
use crate::gh_query::{
    contains_string, copy_strings, is_first_pos, row_key, row_key_spec, strings_view,
};
use crate::field_extractors::{extract_display, extract_display_spec, is_datetime_bytes, is_datetime_string};
use crate::gh_query::{add_unique, toggle, toggle_spec};
use crate::json::{json_as_bool, json_as_str, json_get, Json};
use crate::settings::{author_group, author_group_spec};
use crate::text::{chars_of, contains_chars, contains_seq, lowercase, string_from, to_lowercase};
use crate::war_room::str_eq;
use crate::text_map::TextMap;

verus! {

broadcast use vstd::string::group_string_axioms;

// ---------------------------------------------------------------------------
// Priority order
// ---------------------------------------------------------------------------

pub open spec fn opt_view(o: Option<String>) -> Option<Seq<char>> {
    match o {
        Some(s) => Some(s@),
        None => None,
    }
}

/// The key (`name#number`) of each row, where it has one.
pub open spec fn row_keys_spec(rows: Seq<Json>) -> Seq<Option<Seq<char>>> {
    rows.map_values(|r: Json| row_key_spec(r))
}

/// The last row whose key is `k`: a key maps to one row, the last one read.
pub open spec fn last_with_key(keys: Seq<Option<Seq<char>>>, k: Seq<char>) -> Option<int>
    decreases keys.len(),
{
    if keys.len() == 0 {
        None
    } else if keys.last() == Some(k) {
        Some(keys.len() - 1)
    } else {
        last_with_key(keys.drop_last(), k)
    }
}

/// The rows named by the saved order, in its order; keys that match no row
/// are skipped.
pub open spec fn positioned_rows(keys: Seq<Option<Seq<char>>>, order: Seq<Seq<char>>) -> Seq<int>
    decreases order.len(),
{
    if order.len() == 0 {
        Seq::empty()
    } else {
        let rest = positioned_rows(keys, order.drop_last());
        match last_with_key(keys, order.last()) {
            Some(i) => rest.push(i),
            None => rest,
        }
    }
}

/// A row whose key is in the saved order.
pub open spec fn is_positioned(key: Option<Seq<char>>, order: Seq<Seq<char>>) -> bool {
    match key {
        Some(k) => order.contains(k),
        None => false,
    }
}

/// The rows that the saved order does not place, in fetched order.
pub open spec fn unpositioned_rows(keys: Seq<Option<Seq<char>>>, order: Seq<Seq<char>>) -> Seq<int>
    decreases keys.len(),
{
    if keys.len() == 0 {
        Seq::empty()
    } else {
        let rest = unpositioned_rows(keys.drop_last(), order);
        if is_positioned(keys.last(), order) {
            rest
        } else {
            rest.push(keys.len() - 1)
        }
    }
}

/// Priority mode: the rows the saved order places, then all the others.
pub open spec fn priority_order_spec(rows: Seq<Json>, order: Seq<Seq<char>>) -> Seq<int> {
    let keys = row_keys_spec(rows);
    positioned_rows(keys, order) + unpositioned_rows(keys, order)
}

pub open spec fn indices_view(v: Seq<usize>) -> Seq<int> {
    v.map_values(|i: usize| i as int)
}

fn row_keys(rows: &[Json]) -> (r: Vec<Option<String>>)
    ensures
        r@.map_values(|o: Option<String>| opt_view(o)) == row_keys_spec(rows@),
{
    let mut r: Vec<Option<String>> = Vec::new();
    let mut i: usize = 0;
    while i < rows.len()
        invariant
            i <= rows@.len(),
            r@.len() == i,
            forall|j: int| 0 <= j < i ==> opt_view(#[trigger] r@[j]) == row_key_spec(rows@[j]),
        decreases rows@.len() - i,
    {
        r.push(row_key(&rows[i]));
        i = i + 1;
    }
    assert(r@.map_values(|o: Option<String>| opt_view(o)) =~= row_keys_spec(rows@));
    r
}

fn key_is(o: &Option<String>, k: &String) -> (b: bool)
    ensures
        b == (opt_view(*o) == Some(k@)),
{
    match o {
        Some(s) => crate::text_map::compare_str(s, k) == 0,
        None => false,
    }
}

fn find_last_key(keys: &Vec<Option<String>>, k: &String) -> (r: Option<usize>)
    ensures
        r matches Some(i) ==> i < keys@.len() && last_with_key(
            keys@.map_values(|o: Option<String>| opt_view(o)),
            k@,
        ) == Some(i as int),
        r is None ==> last_with_key(keys@.map_values(|o: Option<String>| opt_view(o)), k@) is None,
{
    let ghost kv = keys@.map_values(|o: Option<String>| opt_view(o));
    let mut j: usize = keys.len();
    assert(kv.take(j as int) == kv);
    while j > 0
        invariant
            j <= keys@.len(),
            kv == keys@.map_values(|o: Option<String>| opt_view(o)),
            last_with_key(kv, k@) == last_with_key(kv.take(j as int), k@),
        decreases j,
    {
        assert(kv.take(j as int).last() == kv[j - 1]);
        assert(kv.take(j as int).drop_last() == kv.take(j - 1));
        if key_is(&keys[j - 1], k) {
            return Some(j - 1);
        }
        j = j - 1;
    }
    None
}

fn is_positioned_exec(key: &Option<String>, order: &Vec<String>) -> (b: bool)
    ensures
        b == is_positioned(opt_view(*key), strings_view(order@)),
{
    match key {
        Some(k) => contains_string(order, k),
        None => false,
    }
}

/// Priority mode: the positions of the rows in display order. First the
/// rows named by the saved order (a key names the last row that has it),
/// then every row whose key is not in the saved order, in fetched order.
pub fn priority_order(rows: &[Json], order: &Vec<String>) -> (r: Vec<usize>)
    ensures
        indices_view(r@) == priority_order_spec(rows@, strings_view(order@)),
        forall|j: int| 0 <= j < r@.len() ==> r@[j] < rows@.len(),
{
    let keys = row_keys(rows);
    let ghost kv = keys@.map_values(|o: Option<String>| opt_view(o));
    let ghost ov = strings_view(order@);
    assert(kv.len() == keys@.len() && row_keys_spec(rows@).len() == rows@.len());
    let mut out: Vec<usize> = Vec::new();
    let mut i: usize = 0;
    while i < order.len()
        invariant
            i <= order@.len(),
            kv == keys@.map_values(|o: Option<String>| opt_view(o)),
            kv == row_keys_spec(rows@),
            keys@.len() == rows@.len(),
            ov == strings_view(order@),
            indices_view(out@) == positioned_rows(kv, ov.take(i as int)),
            forall|j: int| 0 <= j < out@.len() ==> out@[j] < rows@.len(),
        decreases order@.len() - i,
    {
        assert(ov.take(i + 1).drop_last() == ov.take(i as int));
        assert(ov.take(i + 1).last() == order@[i as int]@);
        if let Some(p) = find_last_key(&keys, &order[i]) {
            let ghost before = out@;
            out.push(p);
            assert(indices_view(out@) =~= indices_view(before).push(p as int));
        }
        i = i + 1;
    }
    assert(ov.take(order@.len() as int) == ov);
    let ghost mid = out@;
    let mut j: usize = 0;
    while j < keys.len()
        invariant
            j <= keys@.len(),
            kv == keys@.map_values(|o: Option<String>| opt_view(o)),
            keys@.len() == rows@.len(),
            ov == strings_view(order@),
            indices_view(mid) == positioned_rows(kv, ov),
            out@.len() >= mid.len(),
            out@.subrange(0, mid.len() as int) == mid,
            indices_view(out@.subrange(mid.len() as int, out@.len() as int)) == unpositioned_rows(
                kv.take(j as int),
                ov,
            ),
            forall|q: int| 0 <= q < out@.len() ==> out@[q] < rows@.len(),
        decreases keys@.len() - j,
    {
        assert(kv.take(j + 1).drop_last() == kv.take(j as int));
        assert(kv.take(j + 1).last() == kv[j as int]);
        if !is_positioned_exec(&keys[j], order) {
            let ghost before = out@;
            out.push(j);
            assert(out@.subrange(0, mid.len() as int) =~= before.subrange(0, mid.len() as int));
            assert(indices_view(out@.subrange(mid.len() as int, out@.len() as int)) =~= indices_view(
                before.subrange(mid.len() as int, before.len() as int),
            ).push(j as int));
        }
        j = j + 1;
    }
    assert(kv.take(keys@.len() as int) == kv);
    assert(indices_view(out@) =~= indices_view(mid) + indices_view(
        out@.subrange(mid.len() as int, out@.len() as int),
    ));
    out
}

proof fn lemma_unpositioned_all(keys: Seq<Option<Seq<char>>>)
    ensures
        unpositioned_rows(keys, Seq::empty()) == Seq::new(keys.len(), |i: int| i),
    decreases keys.len(),
{
    if keys.len() > 0 {
        lemma_unpositioned_all(keys.drop_last());
        assert(!is_positioned(keys.last(), Seq::empty()));
        assert(Seq::new((keys.len() - 1) as nat, |i: int| i).push(keys.len() - 1) =~= Seq::new(
            keys.len(),
            |i: int| i,
        ));
    }
}

/// With no saved order, priority mode shows the rows as fetched.
pub proof fn lemma_priority_without_order(rows: Seq<Json>)
    ensures
        priority_order_spec(rows, Seq::empty()) == Seq::new(rows.len(), |i: int| i),
{
    let keys = row_keys_spec(rows);
    lemma_unpositioned_all(keys);
    assert(positioned_rows(keys, Seq::empty()) == Seq::<int>::empty());
    assert(Seq::<int>::empty() + unpositioned_rows(keys, Seq::empty()) == unpositioned_rows(
        keys,
        Seq::empty(),
    ));
}

/// No two rows share a key.
pub open spec fn keys_unique(keys: Seq<Option<Seq<char>>>) -> bool {
    forall|i: int, j: int|
        0 <= i < keys.len() && 0 <= j < keys.len() && i != j && keys[i] is Some ==> keys[i]
            != keys[j]
}

proof fn lemma_last_with_key(keys: Seq<Option<Seq<char>>>, k: Seq<char>)
    ensures
        last_with_key(keys, k) matches Some(i) ==> 0 <= i < keys.len() && keys[i] == Some(k),
        last_with_key(keys, k) is None ==> forall|i: int| 0 <= i < keys.len() ==> keys[i] != Some(k),
    decreases keys.len(),
{
    if keys.len() > 0 {
        lemma_last_with_key(keys.drop_last(), k);
        if keys.last() != Some(k) {
            assert forall|i: int| 0 <= i < keys.len() - 1 implies keys[i] == keys.drop_last()[i] by {}
        }
    }
}

proof fn lemma_last_with_key_unique(keys: Seq<Option<Seq<char>>>, k: Seq<char>, x: int)
    requires
        keys_unique(keys),
        0 <= x < keys.len(),
        keys[x] == Some(k),
    ensures
        last_with_key(keys, k) == Some(x),
{
    lemma_last_with_key(keys, k);
}

proof fn lemma_positioned(keys: Seq<Option<Seq<char>>>, order: Seq<Seq<char>>)
    ensures
        forall|j: int|
            0 <= j < positioned_rows(keys, order).len() ==> {
                let x = #[trigger] positioned_rows(keys, order)[j];
                &&& 0 <= x < keys.len()
                &&& keys[x] is Some
                &&& order.contains(keys[x]->0)
            },
        keys_unique(keys) && order.no_duplicates() ==> positioned_rows(keys, order).no_duplicates(),
        forall|k: Seq<char>|
            order.contains(k) && #[trigger] last_with_key(keys, k) is Some ==> positioned_rows(
                keys,
                order,
            ).contains(last_with_key(keys, k)->0),
    decreases order.len(),
{
    if order.len() > 0 {
        let d = order.drop_last();
        let k = order.last();
        let p = positioned_rows(keys, d);
        lemma_positioned(keys, d);
        lemma_last_with_key(keys, k);
        assert forall|c: Seq<char>| d.contains(c) implies order.contains(c) by {
            let w = choose|w: int| 0 <= w < d.len() && d[w] == c;
            assert(order[w] == c);
        }
        assert(order.contains(k)) by {
            assert(order[order.len() - 1] == k);
        }
        let q = positioned_rows(keys, order);
        assert forall|j: int| 0 <= j < q.len() implies {
            let x = #[trigger] q[j];
            &&& 0 <= x < keys.len()
            &&& keys[x] is Some
            &&& order.contains(keys[x]->0)
        } by {
            if j < p.len() {
                assert(q[j] == p[j]);
            }
        }
        if keys_unique(keys) && order.no_duplicates() {
            assert(d.no_duplicates()) by {
                assert forall|a: int, b: int|
                    0 <= a < d.len() && 0 <= b < d.len() && a != b implies d[a] != d[b] by {
                    assert(d[a] == order[a] && d[b] == order[b]);
                }
            }
            assert(!d.contains(k)) by {
                if d.contains(k) {
                    let w = choose|w: int| 0 <= w < d.len() && d[w] == k;
                    assert(order[w] == order[order.len() - 1]);
                }
            }
            if let Some(i) = last_with_key(keys, k) {
                assert forall|a: int, b: int|
                    0 <= a < q.len() && 0 <= b < q.len() && a != b implies q[a] != q[b] by {
                    if a < p.len() && b < p.len() {
                        assert(q[a] == p[a] && q[b] == p[b]);
                    } else if a < p.len() {
                        assert(q[a] == p[a]);
                        let x = p[a];
                        assert(keys[x] is Some && d.contains(keys[x]->0));
                        assert(q[b] == i);
                        if x == i {
                            assert(keys[i] == Some(k));
                        }
                    } else if b < p.len() {
                        assert(q[b] == p[b]);
                        let x = p[b];
                        assert(keys[x] is Some && d.contains(keys[x]->0));
                        if x == i {
                            assert(keys[i] == Some(k));
                        }
                    }
                }
            }
        }
        assert forall|c: Seq<char>|
            order.contains(c) && #[trigger] last_with_key(keys, c) is Some implies q.contains(
                last_with_key(keys, c)->0,
            ) by {
            let x = last_with_key(keys, c)->0;
            lemma_last_with_key(keys, c);
            if c == k {
                assert(q[q.len() - 1] == x);
            } else {
                let w = choose|w: int| 0 <= w < order.len() && order[w] == c;
                assert(w < order.len() - 1);
                assert(d[w] == c);
                assert(d.contains(c));
                assert(p.contains(x));
                let v = choose|v: int| 0 <= v < p.len() && p[v] == x;
                assert(q[v] == x);
            }
        }
    }
}

proof fn lemma_unpositioned(keys: Seq<Option<Seq<char>>>, order: Seq<Seq<char>>)
    ensures
        forall|j: int|
            0 <= j < unpositioned_rows(keys, order).len() ==> {
                let x = #[trigger] unpositioned_rows(keys, order)[j];
                0 <= x < keys.len() && !is_positioned(keys[x], order)
            },
        forall|a: int, b: int|
            0 <= a < b < unpositioned_rows(keys, order).len() ==> #[trigger] unpositioned_rows(
                keys,
                order,
            )[a] < #[trigger] unpositioned_rows(keys, order)[b],
        forall|x: int|
            0 <= x < keys.len() && !is_positioned(#[trigger] keys[x], order) ==> unpositioned_rows(
                keys,
                order,
            ).contains(x),
    decreases keys.len(),
{
    if keys.len() > 0 {
        let d = keys.drop_last();
        lemma_unpositioned(d, order);
        let u = unpositioned_rows(d, order);
        let v = unpositioned_rows(keys, order);
        assert forall|x: int| 0 <= x < d.len() implies d[x] == keys[x] by {}
        assert forall|j: int| 0 <= j < v.len() implies {
            let x = #[trigger] v[j];
            0 <= x < keys.len() && !is_positioned(keys[x], order)
        } by {
            if j < u.len() {
                assert(v[j] == u[j]);
                assert(d[u[j]] == keys[u[j]]);
            }
        }
        assert forall|a: int, b: int| 0 <= a < b < v.len() implies #[trigger] v[a] < #[trigger] v[b] by {
            if b < u.len() {
                assert(v[a] == u[a] && v[b] == u[b]);
            } else {
                assert(v[a] == u[a]);
            }
        }
        assert forall|x: int| 0 <= x < keys.len() && !is_positioned(#[trigger] keys[x], order) implies v.contains(
            x,
        ) by {
            if x < keys.len() - 1 {
                assert(d[x] == keys[x]);
                assert(u.contains(x));
                let w = choose|w: int| 0 <= w < u.len() && u[w] == x;
                assert(v[w] == x);
            } else {
                assert(v[v.len() - 1] == x);
            }
        }
    }
}

/// When no two rows share a key and the saved order names each key once,
/// priority mode shows every fetched row exactly once.
pub proof fn lemma_priority_shows_each_row_once(rows: Seq<Json>, order: Seq<Seq<char>>)
    requires
        keys_unique(row_keys_spec(rows)),
        order.no_duplicates(),
    ensures
        priority_order_spec(rows, order).no_duplicates(),
        forall|j: int|
            0 <= j < priority_order_spec(rows, order).len() ==> 0 <= #[trigger] priority_order_spec(
                rows,
                order,
            )[j] < rows.len(),
        forall|x: int| 0 <= x < rows.len() ==> #[trigger] priority_order_spec(rows, order).contains(x),
{
    let keys = row_keys_spec(rows);
    let p = positioned_rows(keys, order);
    let u = unpositioned_rows(keys, order);
    let r = priority_order_spec(rows, order);
    lemma_positioned(keys, order);
    lemma_unpositioned(keys, order);
    assert(r == p + u);
    assert(keys.len() == rows.len());
    assert forall|j: int| 0 <= j < r.len() implies 0 <= #[trigger] r[j] < rows.len() by {
        if j < p.len() {
            assert(r[j] == p[j]);
        } else {
            assert(r[j] == u[j - p.len()]);
        }
    }
    assert forall|a: int, b: int| 0 <= a < r.len() && 0 <= b < r.len() && a != b implies r[a]
        != r[b] by {
        if a < p.len() && b < p.len() {
            assert(r[a] == p[a] && r[b] == p[b]);
        } else if a >= p.len() && b >= p.len() {
            assert(r[a] == u[a - p.len()] && r[b] == u[b - p.len()]);
            if a < b {
                assert(u[a - p.len()] < u[b - p.len()]);
            } else {
                assert(u[b - p.len()] < u[a - p.len()]);
            }
        } else if a < p.len() {
            assert(r[a] == p[a]);
            assert(r[b] == u[b - p.len()]);
            let x = p[a];
            assert(is_positioned(keys[x], order));
            assert(!is_positioned(keys[u[b - p.len()]], order));
        } else {
            assert(r[b] == p[b]);
            assert(r[a] == u[a - p.len()]);
            let x = p[b];
            assert(is_positioned(keys[x], order));
            assert(!is_positioned(keys[u[a - p.len()]], order));
        }
    }
    assert forall|x: int| 0 <= x < rows.len() implies #[trigger] r.contains(x) by {
        if is_positioned(keys[x], order) {
            let k = keys[x]->0;
            lemma_last_with_key_unique(keys, k, x);
            assert(p.contains(x));
            let w = choose|w: int| 0 <= w < p.len() && p[w] == x;
            assert(r[w] == x);
        } else {
            assert(u.contains(x));
            let w = choose|w: int| 0 <= w < u.len() && u[w] == x;
            assert(r[p.len() + w] == x);
        }
    }
}

// ---------------------------------------------------------------------------
// Editing the saved order
// ---------------------------------------------------------------------------

/// `s` without any occurrence of `k`, the rest in order.
pub open spec fn remove_all(s: Seq<Seq<char>>, k: Seq<char>) -> Seq<Seq<char>>
    decreases s.len(),
{
    if s.len() == 0 {
        Seq::empty()
    } else {
        let rest = remove_all(s.drop_last(), k);
        if s.last() == k {
            rest
        } else {
            rest.push(s.last())
        }
    }
}

pub open spec fn send_to_top_spec(order: Seq<Seq<char>>, k: Seq<char>) -> Seq<Seq<char>> {
    seq![k] + remove_all(order, k)
}

pub open spec fn send_to_bottom_spec(order: Seq<Seq<char>>, k: Seq<char>) -> Seq<Seq<char>> {
    remove_all(order, k).push(k)
}

fn remove_all_exec(order: &Vec<String>, k: &String) -> (r: Vec<String>)
    ensures
        strings_view(r@) == remove_all(strings_view(order@), k@),
{
    let ghost ov = strings_view(order@);
    let mut r: Vec<String> = Vec::new();
    let mut i: usize = 0;
    while i < order.len()
        invariant
            i <= order@.len(),
            ov == strings_view(order@),
            strings_view(r@) == remove_all(ov.take(i as int), k@),
        decreases order@.len() - i,
    {
        assert(ov.take(i + 1).drop_last() == ov.take(i as int));
        assert(ov.take(i + 1).last() == order@[i as int]@);
        if crate::text_map::compare_str(&order[i], k) != 0 {
            let ghost before = r@;
            r.push(order[i].clone());
            assert(strings_view(r@) =~= strings_view(before).push(order@[i as int]@));
        }
        i = i + 1;
    }
    assert(ov.take(order@.len() as int) == ov);
    r
}

/// "Send to Top": the row's key first, then the saved order without it.
pub fn send_to_top(order: &Vec<String>, key: &String) -> (r: Vec<String>)
    ensures
        strings_view(r@) == send_to_top_spec(strings_view(order@), key@),
{
    let rest = remove_all_exec(order, key);
    let mut r: Vec<String> = Vec::new();
    r.push(key.clone());
    let mut i: usize = 0;
    while i < rest.len()
        invariant
            i <= rest@.len(),
            strings_view(r@) == seq![key@] + strings_view(rest@).take(i as int),
        decreases rest@.len() - i,
    {
        let ghost before = r@;
        let item = rest[i].clone();
        assert(item@ == rest@[i as int]@);
        r.push(item);
        assert(strings_view(rest@).take(i + 1) =~= strings_view(rest@).take(i as int).push(
            rest@[i as int]@,
        ));
        assert(strings_view(r@) =~= strings_view(before).push(rest@[i as int]@));
        assert(strings_view(r@) =~= seq![key@] + strings_view(rest@).take(i + 1));
        i = i + 1;
    }
    assert(strings_view(rest@).take(rest@.len() as int) == strings_view(rest@));
    r
}

/// "Send to Bottom": the saved order without the row's key, then the key.
pub fn send_to_bottom(order: &Vec<String>, key: &String) -> (r: Vec<String>)
    ensures
        strings_view(r@) == send_to_bottom_spec(strings_view(order@), key@),
{
    let mut r = remove_all_exec(order, key);
    let ghost before = r@;
    r.push(key.clone());
    assert(strings_view(r@) =~= strings_view(before).push(key@));
    r
}

proof fn lemma_remove_all_add(a: Seq<Seq<char>>, b: Seq<Seq<char>>, k: Seq<char>)
    ensures
        remove_all(a + b, k) == remove_all(a, k) + remove_all(b, k),
    decreases b.len(),
{
    if b.len() == 0 {
        assert(a + b == a);
        assert(remove_all(a, k) + remove_all(b, k) == remove_all(a, k));
    } else {
        lemma_remove_all_add(a, b.drop_last(), k);
        assert((a + b).drop_last() == a + b.drop_last());
        assert((a + b).last() == b.last());
        if b.last() != k {
            assert(remove_all(a, k) + remove_all(b, k) == (remove_all(a, k) + remove_all(
                b.drop_last(),
                k,
            )).push(b.last()));
        }
    }
}

proof fn lemma_remove_all_twice(s: Seq<Seq<char>>, k: Seq<char>)
    ensures
        remove_all(remove_all(s, k), k) == remove_all(s, k),
        !remove_all(s, k).contains(k),
    decreases s.len(),
{
    if s.len() > 0 {
        lemma_remove_all_twice(s.drop_last(), k);
        let rest = remove_all(s.drop_last(), k);
        if s.last() != k {
            assert(rest.push(s.last()).drop_last() == rest);
            assert forall|i: int| 0 <= i < rest.push(s.last()).len() implies rest.push(
                s.last(),
            )[i] != k by {
                if i < rest.len() {
                    assert(rest[i] != k);
                }
            }
        }
    }
}

proof fn lemma_remove_all_absent(s: Seq<Seq<char>>, k: Seq<char>)
    requires
        !s.contains(k),
    ensures
        remove_all(s, k) == s,
    decreases s.len(),
{
    if s.len() > 0 {
        assert(!s.drop_last().contains(k)) by {
            if s.drop_last().contains(k) {
                let i = choose|i: int| 0 <= i < s.drop_last().len() && s.drop_last()[i] == k;
                assert(s[i] == k);
            }
        }
        lemma_remove_all_absent(s.drop_last(), k);
        assert(s.last() != k) by {
            assert(s[s.len() - 1] == s.last());
        }
        assert(s.drop_last().push(s.last()) == s);
    }
}

/// Sending a row to the top twice is the same as sending it once.
pub proof fn lemma_send_to_top_idempotent(order: Seq<Seq<char>>, k: Seq<char>)
    ensures
        send_to_top_spec(send_to_top_spec(order, k), k) == send_to_top_spec(order, k),
{
    lemma_remove_all_add(seq![k], remove_all(order, k), k);
    lemma_remove_all_twice(order, k);
    assert(remove_all(seq![k], k) == Seq::<Seq<char>>::empty()) by {
        assert(seq![k].drop_last() == Seq::<Seq<char>>::empty());
        assert(seq![k].last() == k);
        reveal_with_fuel(remove_all, 2);
    }
    assert(Seq::<Seq<char>>::empty() + remove_all(order, k) == remove_all(order, k));
}

/// Sending a row to the bottom twice is the same as sending it once.
pub proof fn lemma_send_to_bottom_idempotent(order: Seq<Seq<char>>, k: Seq<char>)
    ensures
        send_to_bottom_spec(send_to_bottom_spec(order, k), k) == send_to_bottom_spec(order, k),
{
    lemma_remove_all_twice(order, k);
    let r = remove_all(order, k);
    assert(r.push(k).drop_last() == r);
}

/// After "Send to Top" the key is first and occurs once; every other key
/// keeps its relative order.
pub proof fn lemma_send_to_top_shape(order: Seq<Seq<char>>, k: Seq<char>)
    ensures
        send_to_top_spec(order, k)[0] == k,
        !send_to_top_spec(order, k).drop_first().contains(k),
        send_to_top_spec(order, k).drop_first() == remove_all(order, k),
{
    lemma_remove_all_twice(order, k);
    assert(send_to_top_spec(order, k).drop_first() == remove_all(order, k));
}

proof fn lemma_positioned_add(
    keys: Seq<Option<Seq<char>>>,
    a: Seq<Seq<char>>,
    b: Seq<Seq<char>>,
)
    ensures
        positioned_rows(keys, a + b) == positioned_rows(keys, a) + positioned_rows(keys, b),
    decreases b.len(),
{
    if b.len() == 0 {
        assert(a + b == a);
        assert(positioned_rows(keys, a) + positioned_rows(keys, b) == positioned_rows(keys, a));
    } else {
        lemma_positioned_add(keys, a, b.drop_last());
        assert((a + b).drop_last() == a + b.drop_last());
        assert((a + b).last() == b.last());
        match last_with_key(keys, b.last()) {
            Some(i) => {
                assert(positioned_rows(keys, a) + positioned_rows(keys, b) == (positioned_rows(
                    keys,
                    a,
                ) + positioned_rows(keys, b.drop_last())).push(i));
            },
            None => {},
        }
    }
}

/// In priority mode, a row sent to the top is shown first.
pub proof fn lemma_send_to_top_shows_first(rows: Seq<Json>, order: Seq<Seq<char>>, k: Seq<char>)
    requires
        last_with_key(row_keys_spec(rows), k) is Some,
    ensures
        priority_order_spec(rows, send_to_top_spec(order, k))[0] == last_with_key(
            row_keys_spec(rows),
            k,
        )->0,
{
    let keys = row_keys_spec(rows);
    lemma_positioned_add(keys, seq![k], remove_all(order, k));
    assert(seq![k].drop_last() == Seq::<Seq<char>>::empty());
    assert(seq![k].last() == k);
    assert(positioned_rows(keys, seq![k]) == seq![last_with_key(keys, k)->0]) by {
        reveal_with_fuel(positioned_rows, 2);
        assert(positioned_rows(keys, Seq::<Seq<char>>::empty()) == Seq::<int>::empty());
        assert(Seq::<int>::empty().push(last_with_key(keys, k)->0) == seq![last_with_key(keys, k)->0]);
    }
}

/// The keys of `order` that are not shown, in order.
pub open spec fn not_shown(order: Seq<Seq<char>>, shown: Seq<Seq<char>>) -> Seq<Seq<char>>
    decreases order.len(),
{
    if order.len() == 0 {
        Seq::empty()
    } else {
        let rest = not_shown(order.drop_last(), shown);
        if shown.contains(order.last()) {
            rest
        } else {
            rest.push(order.last())
        }
    }
}

/// `s` with the item at `from` taken out and put back at `to`, or at the end
/// when `to` is past it.
pub open spec fn move_item(s: Seq<Seq<char>>, from: int, to: int) -> Seq<Seq<char>> {
    let rest = s.remove(from);
    rest.insert(if to < rest.len() { to } else { rest.len() as int }, s[from])
}

/// A drag and drop in the table: the dragged row's key moves to the drop
/// position among the shown keys; saved keys of rows not shown follow.
/// `None` when the dragged key is not shown (nothing changes).
pub open spec fn reorder_spec(
    from_key: Seq<char>,
    to: int,
    shown: Seq<Seq<char>>,
    order: Seq<Seq<char>>,
) -> Option<Seq<Seq<char>>> {
    if shown.contains(from_key) {
        Some(
            move_item(shown, choose|i: int| is_first_pos(shown, from_key, i), to) + not_shown(
                order,
                shown,
            ),
        )
    } else {
        None
    }
}

/// The new saved order after dropping the row `from_key` at position
/// `to_idx` of the displayed rows, whose keys are `display_keys`.
pub fn reorder_order(
    from_key: &String,
    to_idx: usize,
    display_keys: &Vec<String>,
    row_order: &Vec<String>,
) -> (r: Option<Vec<String>>)
    ensures
        match r {
            Some(v) => reorder_spec(
                from_key@,
                to_idx as int,
                strings_view(display_keys@),
                strings_view(row_order@),
            ) == Some(strings_view(v@)),
            None => reorder_spec(
                from_key@,
                to_idx as int,
                strings_view(display_keys@),
                strings_view(row_order@),
            ) is None,
        },
{
    let ghost dv = strings_view(display_keys@);
    let ghost ov = strings_view(row_order@);
    let mut from: usize = 0;
    while from < display_keys.len()
        invariant
            from <= display_keys@.len(),
            dv == strings_view(display_keys@),
            forall|j: int| 0 <= j < from ==> dv[j] != from_key@,
        ensures
            from <= display_keys@.len(),
            forall|j: int| 0 <= j < from ==> dv[j] != from_key@,
            from < display_keys@.len() ==> dv[from as int] == from_key@,
        decreases display_keys@.len() - from,
    {
        if crate::text_map::compare_str(&display_keys[from], from_key) == 0 {
            break;
        }
        from = from + 1;
    }
    if from == display_keys.len() {
        assert(!dv.contains(from_key@)) by {
            if dv.contains(from_key@) {
                let j = choose|j: int| 0 <= j < dv.len() && dv[j] == from_key@;
                assert(dv[j] != from_key@);
            }
        }
        return None;
    }
    proof {
        assert(is_first_pos(dv, from_key@, from as int));
        assert(dv.contains(from_key@));
        let c = choose|c: int| is_first_pos(dv, from_key@, c);
        assert(c == from as int);
    }
    let mut next = copy_strings(display_keys);
    let item = next.remove(from);
    let to = if to_idx < next.len() {
        to_idx
    } else {
        next.len()
    };
    next.insert(to, item);
    assert(strings_view(next@) =~= move_item(dv, from as int, to_idx as int));
    let ghost moved = strings_view(next@);
    let mut i: usize = 0;
    while i < row_order.len()
        invariant
            i <= row_order@.len(),
            ov == strings_view(row_order@),
            dv == strings_view(display_keys@),
            strings_view(next@) == moved + not_shown(ov.take(i as int), dv),
        decreases row_order@.len() - i,
    {
        assert(ov.take(i + 1).drop_last() == ov.take(i as int));
        assert(ov.take(i + 1).last() == row_order@[i as int]@);
        if !contains_string(display_keys, &row_order[i]) {
            let ghost before = next@;
            let k = row_order[i].clone();
            next.push(k);
            assert(strings_view(next@) =~= strings_view(before).push(row_order@[i as int]@));
        }
        i = i + 1;
    }
    assert(ov.take(row_order@.len() as int) == ov);
    Some(next)
}

proof fn lemma_not_shown_is_filter(order: Seq<Seq<char>>, shown: Seq<Seq<char>>)
    ensures
        not_shown(order, shown) == order.filter(|k: Seq<char>| !shown.contains(k)),
    decreases order.len(),
{
    reveal(Seq::filter);
    if order.len() > 0 {
        lemma_not_shown_is_filter(order.drop_last(), shown);
    }
}

/// After a drag and drop, the keys after the shown ones are exactly the
/// saved keys that are not shown, in their saved order: rows hidden by a
/// filter keep their relative priority.
pub proof fn lemma_reorder_keeps_hidden_order(
    from_key: Seq<char>,
    to: int,
    shown: Seq<Seq<char>>,
    order: Seq<Seq<char>>,
)
    requires
        shown.contains(from_key),
        0 <= to,
    ensures
        reorder_spec(from_key, to, shown, order) matches Some(r) && shown.len() <= r.len() && r.subrange(
            shown.len() as int,
            r.len() as int,
        ) == order.filter(|k: Seq<char>| !shown.contains(k)),
{
    assert(exists|c: int| is_first_pos(shown, from_key, c)) by {
        lemma_first_pos_exists(shown, from_key);
    }
    let c = choose|c: int| is_first_pos(shown, from_key, c);
    let m = move_item(shown, c, to);
    assert(m.len() == shown.len());
    let r = m + not_shown(order, shown);
    assert(r.subrange(shown.len() as int, r.len() as int) =~= not_shown(order, shown));
    lemma_not_shown_is_filter(order, shown);
}

/// After a drag and drop, the dragged key stands at the drop position (or
/// last among the shown keys when dropped past them), and the new order
/// holds every shown key and every saved key not shown.
pub proof fn lemma_reorder_places_key(
    from_key: Seq<char>,
    to: int,
    shown: Seq<Seq<char>>,
    order: Seq<Seq<char>>,
)
    requires
        shown.contains(from_key),
        0 <= to,
    ensures
        reorder_spec(from_key, to, shown, order) matches Some(r) && r.len() == shown.len()
            + not_shown(order, shown).len() && r[if to < shown.len() - 1 {
            to
        } else {
            shown.len() - 1
        }] == from_key,
{
    assert(exists|c: int| is_first_pos(shown, from_key, c)) by {
        lemma_first_pos_exists(shown, from_key);
    }
    let c = choose|c: int| is_first_pos(shown, from_key, c);
    let m = move_item(shown, c, to);
    assert(m.len() == shown.len());
}

proof fn lemma_first_pos_exists(s: Seq<Seq<char>>, k: Seq<char>)
    requires
        s.contains(k),
    ensures
        exists|c: int| is_first_pos(s, k, c),
    decreases s.len(),
{
    if s.drop_last().contains(k) {
        lemma_first_pos_exists(s.drop_last(), k);
        let c = choose|c: int| is_first_pos(s.drop_last(), k, c);
        assert forall|j: int| 0 <= j <= c implies s[j] == s.drop_last()[j] by {}
        assert(is_first_pos(s, k, c));
    } else {
        assert(s.last() == k) by {
            let i = choose|i: int| 0 <= i < s.len() && s[i] == k;
            if i < s.len() - 1 {
                assert(s.drop_last()[i] == k);
            }
        }
        assert forall|j: int| 0 <= j < s.len() - 1 implies s[j] != k by {
            assert(s.drop_last()[j] == s[j]);
        }
        assert(is_first_pos(s, k, s.len() - 1));
    }
}

// ---------------------------------------------------------------------------
// Cells and column filters
// ---------------------------------------------------------------------------

/// The extractor configured for a column, if any.
pub open spec fn extractor_for(ex: Map<Seq<char>, String>, col: Seq<char>) -> Option<Seq<char>> {
    if ex.contains_key(col) {
        Some(ex[col]@)
    } else {
        None
    }
}

/// The login of a row's `author` object (empty when it has none).
pub open spec fn author_login(author: Json) -> Seq<char> {
    match json_get(author, "login"@) {
        Some(v) => match json_as_str(v) {
            Some(s) => s,
            None => Seq::empty(),
        },
        None => Seq::empty(),
    }
}

/// The `is_bot` flag of a row's `author` object (false when it has none).
pub open spec fn author_is_bot(author: Json) -> bool {
    match json_get(author, "is_bot"@) {
        Some(v) => match json_as_bool(v) {
            Some(b) => b,
            None => false,
        },
        None => false,
    }
}

/// The column that tiles with an `author` column gain: the author's group
/// under the roster.
pub open spec fn author_group_column() -> Seq<char> {
    "authorGroup"@
}

/// The derived `authorGroup` cell: in that column, for a row without an
/// `authorGroup` member of its own but with an `author`, the group of the
/// author's login and bot flag under the roster.
pub open spec fn group_cell(row: Json, col: Seq<char>, roster: Map<Seq<char>, String>) -> Option<
    Seq<char>,
> {
    if col == author_group_column() && json_get(row, col) is None {
        match json_get(row, "author"@) {
            Some(a) => Some(author_group_spec(roster, author_login(a), author_is_bot(a))),
            None => None,
        }
    } else {
        None
    }
}

/// The text a cell shows (and that filters compare): the derived author
/// group, or else the row's value for the column (null when missing) through
/// the column's extractor.
pub open spec fn cell_display(
    row: Json,
    col: Seq<char>,
    ex: Map<Seq<char>, String>,
    roster: Map<Seq<char>, String>,
) -> Seq<char> {
    match group_cell(row, col, roster) {
        Some(g) => g,
        None => extract_display_spec(
            match json_get(row, col) {
                Some(v) => v,
                None => Json::Null,
            },
            extractor_for(ex, col),
        ),
    }
}

/// The derived author group of a cell, if the cell has one.
pub fn author_group_text(row: &Json, col: &String, roster: &TextMap<String>) -> (r: Option<&'static str>)
    ensures
        match group_cell(*row, col@, roster.view()) {
            Some(g) => r matches Some(s) && s@ == g,
            None => r is None,
        },
{
    proof {
        reveal_strlit("authorGroup");
    }
    if !str_eq(col.as_str(), "authorGroup") || row.get(col.as_str()).is_some() {
        return None;
    }
    match row.get("author") {
        Some(a) => {
            let login: &str = match a.get("login") {
                Some(v) => match v.as_str() {
                    Some(s) => s.as_str(),
                    None => "",
                },
                None => "",
            };
            let is_bot = match a.get("is_bot") {
                Some(v) => match v.as_bool() {
                    Some(b) => b,
                    None => false,
                },
                None => false,
            };
            proof {
                reveal_strlit("");
                assert(col@ == author_group_column());
                assert(login@ == author_login(*a));
                assert(is_bot == author_is_bot(*a));
            }
            Some(author_group(roster, login, is_bot))
        },
        None => None,
    }
}

/// The display text of a cell.
pub fn cell_text(row: &Json, col: &String, extractors: &TextMap<String>, roster: &TextMap<String>) -> (r: String)
    ensures
        r@ == cell_display(*row, col@, extractors.view(), roster.view()),
{
    if let Some(g) = author_group_text(row, col, roster) {
        return string_from(g);
    }
    let null = Json::Null;
    let v = match row.get(col.as_str()) {
        Some(v) => v,
        None => &null,
    };
    match extractors.get(col) {
        Some(e) => extract_display(v, Some(e.as_str())),
        None => extract_display(v, None),
    }
}

/// The row's value for the column, null when missing.
pub open spec fn cell_value(row: Json, col: Seq<char>) -> Json {
    match json_get(row, col) {
        Some(v) => v,
        None => Json::Null,
    }
}

/// The cell holds a date-time string (shown as a date, full text on hover).
pub open spec fn cell_is_datetime(row: Json, col: Seq<char>) -> bool {
    match cell_value(row, col) {
        Json::Str(s) => is_datetime_bytes(vstd::utf8::encode_utf8(s@)),
        _ => false,
    }
}

/// The hover text of a cell: the raw date-time, the pretty JSON of an
/// object under an extractor, or the shown text.
pub open spec fn cell_tooltip_spec(
    row: Json,
    col: Seq<char>,
    ex: Map<Seq<char>, String>,
    roster: Map<Seq<char>, String>,
) -> Seq<char> {
    if group_cell(row, col, roster) is Some {
        cell_display(row, col, ex, roster)
    } else if cell_is_datetime(row, col) {
        match cell_value(row, col) {
            Json::Str(s) => s@,
            _ => Seq::empty(),
        }
    } else if extractor_for(ex, col) is Some && cell_value(row, col) is Object {
        match cell_value(row, col) {
            Json::Object { pretty, .. } => pretty@,
            _ => Seq::empty(),
        }
    } else {
        cell_display(row, col, ex, roster)
    }
}

/// Whether the cell's value is a date-time string.
pub fn cell_datetime(row: &Json, col: &String) -> (r: bool)
    ensures
        r == cell_is_datetime(*row, col@),
{
    match row.get(col.as_str()) {
        Some(Json::Str(s)) => is_datetime_string(s.as_str()),
        _ => false,
    }
}

/// The hover text of a cell.
pub fn cell_tooltip(
    row: &Json,
    col: &String,
    extractors: &TextMap<String>,
    roster: &TextMap<String>,
) -> (r: String)
    ensures
        r@ == cell_tooltip_spec(*row, col@, extractors.view(), roster.view()),
{
    if let Some(g) = author_group_text(row, col, roster) {
        return string_from(g);
    }
    if cell_datetime(row, col) {
        return match row.get(col.as_str()) {
            Some(Json::Str(s)) => s.clone(),
            _ => String::new(),
        };
    }
    let has_ex = extractors.get(col).is_some();
    if has_ex {
        if let Some(Json::Object { pretty, .. }) = row.get(col.as_str()) {
            return pretty.clone();
        }
    }
    cell_text(row, col, extractors, roster)
}

/// The cell's text is ticked in its column's filter (shown highlighted).
pub fn filter_is_active(filters: &TextMap<Vec<String>>, col: &String, display: &String) -> (r: bool)
    ensures
        r == (filters.view().contains_key(col@) && strings_view(filters.view()[col@]@).contains(
            display@,
        )),
{
    match filters.get(col) {
        Some(v) => contains_string(v, display),
        None => false,
    }
}

/// One column filter admits the row: no value is ticked, or the cell's text
/// is one of the ticked values.
pub open spec fn filter_admits(
    row: Json,
    col: Seq<char>,
    vals: Vec<String>,
    ex: Map<Seq<char>, String>,
    roster: Map<Seq<char>, String>,
) -> bool {
    vals@.len() == 0 || strings_view(vals@).contains(cell_display(row, col, ex, roster))
}

/// Every column filter admits the row.
pub open spec fn row_passes(
    row: Json,
    filters: Map<Seq<char>, Vec<String>>,
    ex: Map<Seq<char>, String>,
    roster: Map<Seq<char>, String>,
) -> bool {
    forall|col: Seq<char>| #[trigger]
        filters.contains_key(col) ==> filter_admits(row, col, filters[col], ex, roster)
}

/// Whether a row passes all the column filters.
pub fn row_matches(
    row: &Json,
    filters: &TextMap<Vec<String>>,
    extractors: &TextMap<String>,
    roster: &TextMap<String>,
) -> (r: bool)
    ensures
        r == row_passes(*row, filters.view(), extractors.view(), roster.view()),
{
    proof {
        filters.lemma_view_entries();
    }
    let mut i: usize = 0;
    while i < filters.len()
        invariant
            i <= filters.entries().len(),
            forall|j: int|
                0 <= j < i ==> filter_admits(
                    *row,
                    #[trigger] filters.entries()[j].0@,
                    filters.entries()[j].1,
                    extractors.view(),
                    roster.view(),
                ),
        decreases filters.entries().len() - i,
    {
        let (col, vals) = filters.entry(i);
        if vals.len() > 0 {
            let d = cell_text(row, col, extractors, roster);
            if !contains_string(vals, &d) {
                proof {
                    filters.lemma_view_entries();
                    let e = filters.entries()[i as int];
                    assert(filters.view().contains_key(e.0@));
                    assert(!filter_admits(
                        *row,
                        e.0@,
                        filters.view()[e.0@],
                        extractors.view(),
                        roster.view(),
                    ));
                }
                return false;
            }
        }
        i = i + 1;
    }
    proof {
        assert forall|col: Seq<char>| #[trigger]
            filters.view().contains_key(col) implies filter_admits(
            *row,
            col,
            filters.view()[col],
            extractors.view(),
            roster.view(),
        ) by {
            let j = choose|j: int| 0 <= j < filters.entries().len() && filters.entries()[j].0@ == col;
            assert(filter_admits(
                *row,
                filters.entries()[j].0@,
                filters.entries()[j].1,
                extractors.view(),
                roster.view(),
            ));
        }
    }
    true
}

/// The rows of `order` (positions into `rows`) that pass the filters, in order.
pub open spec fn passing(
    rows: Seq<Json>,
    order: Seq<int>,
    filters: Map<Seq<char>, Vec<String>>,
    ex: Map<Seq<char>, String>,
    roster: Map<Seq<char>, String>,
) -> Seq<int>
    decreases order.len(),
{
    if order.len() == 0 {
        Seq::empty()
    } else {
        let rest = passing(rows, order.drop_last(), filters, ex, roster);
        if row_passes(rows[order.last()], filters, ex, roster) {
            rest.push(order.last())
        } else {
            rest
        }
    }
}

/// The displayed rows: those of `order` that pass every column filter.
pub fn filter_rows(
    rows: &[Json],
    order: &Vec<usize>,
    filters: &TextMap<Vec<String>>,
    extractors: &TextMap<String>,
    roster: &TextMap<String>,
) -> (r: Vec<usize>)
    requires
        forall|j: int| 0 <= j < order@.len() ==> order@[j] < rows@.len(),
    ensures
        indices_view(r@) == passing(
            rows@,
            indices_view(order@),
            filters.view(),
            extractors.view(),
            roster.view(),
        ),
{
    let ghost ov = indices_view(order@);
    let mut r: Vec<usize> = Vec::new();
    let mut i: usize = 0;
    while i < order.len()
        invariant
            i <= order@.len(),
            ov == indices_view(order@),
            forall|j: int| 0 <= j < order@.len() ==> order@[j] < rows@.len(),
            indices_view(r@) == passing(
                rows@,
                ov.take(i as int),
                filters.view(),
                extractors.view(),
                roster.view(),
            ),
        decreases order@.len() - i,
    {
        assert(ov.take(i + 1).drop_last() == ov.take(i as int));
        assert(ov.take(i + 1).last() == order@[i as int] as int);
        let p = order[i];
        if row_matches(&rows[p], filters, extractors, roster) {
            let ghost before = r@;
            r.push(p);
            assert(indices_view(r@) =~= indices_view(before).push(p as int));
        }
        i = i + 1;
    }
    assert(ov.take(order@.len() as int) == ov);
    r
}

/// How many column filters have at least one value ticked.
pub open spec fn active_count(e: Seq<(String, Vec<String>)>) -> nat
    decreases e.len(),
{
    if e.len() == 0 {
        0
    } else {
        active_count(e.drop_last()) + if e.last().1@.len() > 0 {
            1nat
        } else {
            0nat
        }
    }
}

/// The number shown on the "Filters (n)" and "Clear filters (n)" chips.
pub fn active_filter_count(filters: &TextMap<Vec<String>>) -> (n: usize)
    ensures
        n == active_count(filters.entries()),
{
    let ghost e = filters.entries();
    let mut n: usize = 0;
    let mut i: usize = 0;
    while i < filters.len()
        invariant
            e == filters.entries(),
            i <= e.len(),
            n == active_count(e.take(i as int)),
            n <= i,
        decreases e.len() - i,
    {
        assert(e.take(i + 1).drop_last() == e.take(i as int));
        assert(e.take(i + 1).last() == e[i as int]);
        let (_, vals) = filters.entry(i);
        if vals.len() > 0 {
            n = n + 1;
        }
        i = i + 1;
    }
    assert(e.take(e.len() as int) == e);
    n
}

proof fn lemma_no_active(e: Seq<(String, Vec<String>)>)
    requires
        active_count(e) == 0,
    ensures
        forall|j: int| 0 <= j < e.len() ==> (#[trigger] e[j]).1@.len() == 0,
    decreases e.len(),
{
    if e.len() > 0 {
        lemma_no_active(e.drop_last());
        assert forall|j: int| 0 <= j < e.len() implies (#[trigger] e[j]).1@.len() == 0 by {
            if j < e.len() - 1 {
                assert(e[j] == e.drop_last()[j]);
            }
        }
    }
}

/// With no filter value ticked, every row passes the filters.
pub proof fn lemma_inactive_filters_pass_all(
    filters: TextMap<Vec<String>>,
    ex: Map<Seq<char>, String>,
    roster: Map<Seq<char>, String>,
    row: Json,
)
    requires
        active_count(filters.entries()) == 0,
    ensures
        row_passes(row, filters.view(), ex, roster),
{
    filters.lemma_view_entries();
    lemma_no_active(filters.entries());
    assert forall|col: Seq<char>| #[trigger]
        filters.view().contains_key(col) implies filter_admits(
        row,
        col,
        filters.view()[col],
        ex,
        roster,
    ) by {
        let j = choose|j: int| 0 <= j < filters.entries().len() && filters.entries()[j].0@ == col;
        assert(filters.entries()[j].1@.len() == 0);
    }
}

/// Ticks `val` in the filter of column `col`, or unticks it when ticked.
pub fn toggle_filter_value(filters: &mut TextMap<Vec<String>>, col: String, val: String)
    ensures
        final(filters).view() == old(filters).view().insert(col@, final(filters).view()[col@]),
        strings_view(final(filters).view()[col@]@) == toggle_spec(
            if old(filters).view().contains_key(col@) {
                strings_view(old(filters).view()[col@]@)
            } else {
                Seq::empty()
            },
            val@,
        ),
{
    let mut cur: Vec<String> = match filters.get(&col) {
        Some(v) => copy_strings(v),
        None => Vec::new(),
    };
    toggle(&mut cur, val);
    let ghost cv = cur;
    filters.insert(col, cur);
    assert(filters.view()[col@] == cv);
}

/// The distinct texts of a column over the given rows, in first-seen order
/// (the filter dropdown then sorts them).
pub open spec fn column_cells(
    rows: Seq<Json>,
    order: Seq<int>,
    col: Seq<char>,
    ex: Map<Seq<char>, String>,
    roster: Map<Seq<char>, String>,
) -> Seq<Seq<char>> {
    order.map_values(|i: int| cell_display(rows[i], col, ex, roster))
}

/// The distinct cell texts of column `col` over the rows `order`.
pub fn column_values(
    rows: &[Json],
    order: &Vec<usize>,
    col: &String,
    extractors: &TextMap<String>,
    roster: &TextMap<String>,
) -> (r: Vec<String>)
    requires
        forall|j: int| 0 <= j < order@.len() ==> order@[j] < rows@.len(),
    ensures
        strings_view(r@) == add_unique(
            Seq::empty(),
            column_cells(rows@, indices_view(order@), col@, extractors.view(), roster.view()),
        ),
{
    let ghost cells = column_cells(rows@, indices_view(order@), col@, extractors.view(), roster.view());
    let mut r: Vec<String> = Vec::new();
    let mut i: usize = 0;
    while i < order.len()
        invariant
            i <= order@.len(),
            forall|j: int| 0 <= j < order@.len() ==> order@[j] < rows@.len(),
            cells == column_cells(rows@, indices_view(order@), col@, extractors.view(), roster.view()),
            strings_view(r@) == add_unique(Seq::empty(), cells.take(i as int)),
        decreases order@.len() - i,
    {
        assert(cells.take(i + 1).drop_last() == cells.take(i as int));
        let d = cell_text(&rows[order[i]], col, extractors, roster);
        assert(cells.take(i + 1).last() == d@);
        if !contains_string(&r, &d) {
            let ghost before = r@;
            r.push(d);
            assert(strings_view(r@) =~= strings_view(before).push(cells[i as int]));
        }
        i = i + 1;
    }
    assert(cells.take(order@.len() as int) == cells);
    r
}

/// The values of a filter dropdown that match its search box, ignoring case.
pub open spec fn search_matches(values: Seq<Seq<char>>, query: Seq<char>) -> Seq<Seq<char>>
    decreases values.len(),
{
    if values.len() == 0 {
        Seq::empty()
    } else {
        let rest = search_matches(values.drop_last(), query);
        if contains_seq(lowercase(values.last()), lowercase(query)) {
            rest.push(values.last())
        } else {
            rest
        }
    }
}

/// The dropdown values whose lowercase form contains the lowercase query.
pub fn filter_search(values: &Vec<String>, query: &str) -> (r: Vec<String>)
    ensures
        strings_view(r@) == search_matches(strings_view(values@), query@),
{
    let ghost vv = strings_view(values@);
    let q = to_lowercase(query);
    let qc = chars_of(q.as_str());
    let mut r: Vec<String> = Vec::new();
    let mut i: usize = 0;
    while i < values.len()
        invariant
            i <= values@.len(),
            vv == strings_view(values@),
            qc@ == lowercase(query@),
            strings_view(r@) == search_matches(vv.take(i as int), query@),
        decreases values@.len() - i,
    {
        assert(vv.take(i + 1).drop_last() == vv.take(i as int));
        assert(vv.take(i + 1).last() == values@[i as int]@);
        let l = to_lowercase(values[i].as_str());
        let lc = chars_of(l.as_str());
        if contains_chars(lc.as_slice(), qc.as_slice()) {
            let ghost before = r@;
            r.push(values[i].clone());
            assert(strings_view(r@) =~= strings_view(before).push(values@[i as int]@));
        }
        i = i + 1;
    }
    assert(vv.take(values@.len() as int) == vv);
    r
}

/// The keys of the given rows, skipping rows without one, in order.
pub open spec fn keys_of(rows: Seq<Json>, order: Seq<int>) -> Seq<Seq<char>>
    decreases order.len(),
{
    if order.len() == 0 {
        Seq::empty()
    } else {
        let rest = keys_of(rows, order.drop_last());
        match row_key_spec(rows[order.last()]) {
            Some(k) => rest.push(k),
            None => rest,
        }
    }
}

/// The keys of the displayed rows, for drag-and-drop arithmetic.
pub fn display_keys(rows: &[Json], order: &Vec<usize>) -> (r: Vec<String>)
    requires
        forall|j: int| 0 <= j < order@.len() ==> order@[j] < rows@.len(),
    ensures
        strings_view(r@) == keys_of(rows@, indices_view(order@)),
{
    let ghost ov = indices_view(order@);
    let mut r: Vec<String> = Vec::new();
    let mut i: usize = 0;
    while i < order.len()
        invariant
            i <= order@.len(),
            ov == indices_view(order@),
            forall|j: int| 0 <= j < order@.len() ==> order@[j] < rows@.len(),
            strings_view(r@) == keys_of(rows@, ov.take(i as int)),
        decreases order@.len() - i,
    {
        assert(ov.take(i + 1).drop_last() == ov.take(i as int));
        assert(ov.take(i + 1).last() == order@[i as int] as int);
        if let Some(k) = row_key(&rows[order[i]]) {
            let ghost before = r@;
            r.push(k);
            assert(strings_view(r@) =~= strings_view(before).push(k@));
        }
        i = i + 1;
    }
    assert(ov.take(order@.len() as int) == ov);
    r
}

// ---------------------------------------------------------------------------
// Sort controls
// ---------------------------------------------------------------------------

/// Rows ordered by a column, or by the saved priority order.
#[derive(Clone, Copy, Debug, PartialEq, Eq, Structural)]
pub enum SortMode {
    Column,
    Priority,
}

/// The sort controls of a tile: the mode, the column sorted on (if any) and
/// its direction.
#[derive(Clone, Debug)]
pub struct SortState {
    pub mode: SortMode,
    pub key: Option<String>,
    pub ascending: bool,
}

pub open spec fn sort_view(s: SortState) -> (SortMode, Option<Seq<char>>, bool) {
    (s.mode, opt_view(s.key), s.ascending)
}

/// A click on a column header: sorting by that column, ascending, or the
/// other way round when it is already the sort column.
pub open spec fn click_spec(v: (SortMode, Option<Seq<char>>, bool), k: Seq<char>) -> (
    SortMode,
    Option<Seq<char>>,
    bool,
) {
    if v.1 == Some(k) {
        (SortMode::Column, v.1, !v.2)
    } else {
        (SortMode::Column, Some(k), true)
    }
}

/// The "Priority" chip: leaving priority mode also drops the sort column.
pub open spec fn priority_chip_spec(v: (SortMode, Option<Seq<char>>, bool)) -> (
    SortMode,
    Option<Seq<char>>,
    bool,
) {
    if v.0 == SortMode::Priority {
        (SortMode::Column, None, v.2)
    } else {
        (SortMode::Priority, v.1, v.2)
    }
}

impl SortState {
    /// Column mode, no sort column, ascending.
    pub fn new() -> (s: Self)
        ensures
            sort_view(s) == (SortMode::Column, None::<Seq<char>>, true),
    {
        SortState { mode: SortMode::Column, key: None, ascending: true }
    }

    pub fn click_column(&mut self, k: String)
        ensures
            sort_view(*final(self)) == click_spec(sort_view(*old(self)), k@),
    {
        self.mode = SortMode::Column;
        let same = match &self.key {
            Some(cur) => crate::text_map::compare_str(cur, &k) == 0,
            None => false,
        };
        if same {
            self.ascending = !self.ascending;
        } else {
            self.key = Some(k);
            self.ascending = true;
        }
    }

    pub fn priority_chip(&mut self)
        ensures
            sort_view(*final(self)) == priority_chip_spec(sort_view(*old(self))),
    {
        if self.mode == SortMode::Priority {
            self.mode = SortMode::Column;
            self.key = None;
        } else {
            self.mode = SortMode::Priority;
        }
    }

    /// A drag and drop or a "Send to" edit switches to priority mode.
    pub fn enter_priority(&mut self)
        ensures
            sort_view(*final(self)) == (SortMode::Priority, sort_view(*old(self)).1, old(self).ascending),
    {
        self.mode = SortMode::Priority;
    }
}

/// Clicking the sort column twice gives back the direction it had.
pub proof fn lemma_click_twice(v: (SortMode, Option<Seq<char>>, bool), k: Seq<char>)
    requires
        v.1 == Some(k),
    ensures
        click_spec(click_spec(v, k), k) == (SortMode::Column, Some(k), v.2),
{
}

/// Pressing the "Priority" chip twice from column mode leaves column mode
/// with no sort column.
pub proof fn lemma_priority_chip_twice(v: (SortMode, Option<Seq<char>>, bool))
    requires
        v.0 == SortMode::Column,
    ensures
        priority_chip_spec(priority_chip_spec(v)) == (SortMode::Column, None::<Seq<char>>, v.2),
{
}

} // verus!
