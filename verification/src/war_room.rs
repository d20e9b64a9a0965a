//! War Room logic: the manual lifecycle stages, GitHub links, group rollup
//! status, mirrors and item rows, the link dialog, the Slack status update,
//! and the replace-style record mappers.
use vstd::prelude::*;
use crate::text::{
    chars_of, decimal, is_whitespace, is_ws, push_char, push_chars, push_decimal, push_str,
    slice_range, string_from, trim, trim_chars,
};
use crate::text_map::TextMap;
use crate::types::{
    ChecklistItem, CreateGroupInput, CreateItemInput, GroupWithItems, UpdateGroupInput,
    UpdateItemInput, WarRoomGroup, WarRoomItem,
};

verus! {

broadcast use vstd::string::group_string_axioms;

// ---------------------------------------------------------------------------
// Stages
// ---------------------------------------------------------------------------

/// The manual lifecycle stages `(key, label)`, in lifecycle order.
pub open spec fn stages_spec() -> Seq<(Seq<char>, Seq<char>)> {
    seq![
        ("todo"@, "To do"@),
        ("in_progress"@, "In progress"@),
        ("blocked"@, "Blocked"@),
        ("merged"@, "Merged"@),
        ("released"@, "Released"@),
        ("done"@, "Done"@),
    ]
}

/// Index of `stage` among the stages, if it is one.
pub open spec fn stage_index(stage: Seq<char>) -> Option<int> {
    if stage == "todo"@ {
        Some(0)
    } else if stage == "in_progress"@ {
        Some(1)
    } else if stage == "blocked"@ {
        Some(2)
    } else if stage == "merged"@ {
        Some(3)
    } else if stage == "released"@ {
        Some(4)
    } else if stage == "done"@ {
        Some(5)
    } else {
        None
    }
}

/// Display label of a stage; an unknown stage is shown as is.
pub open spec fn stage_label_spec(stage: Seq<char>) -> Seq<char> {
    match stage_index(stage) {
        Some(i) => stages_spec()[i].1,
        None => stage,
    }
}

pub fn str_eq(a: &str, b: &str) -> (r: bool)
    ensures
        r == (a@ == b@),
{
    let ac = chars_of(a);
    let bc = chars_of(b);
    crate::text_map::compare_chars(ac.as_slice(), bc.as_slice()) == 0
}

/// The stage table, in lifecycle order.
pub fn stages() -> (r: Vec<(&'static str, &'static str)>)
    ensures
        r@.len() == stages_spec().len(),
        forall|i: int| 0 <= i < r@.len() ==> (#[trigger] r@[i]).0@ == stages_spec()[i].0 && r@[i].1@
            == stages_spec()[i].1,
{
    vec![
        ("todo", "To do"),
        ("in_progress", "In progress"),
        ("blocked", "Blocked"),
        ("merged", "Merged"),
        ("released", "Released"),
        ("done", "Done"),
    ]
}

/// Position of `stage` in the stage table.
fn stage_position(stage: &str) -> (r: Option<usize>)
    ensures
        r matches Some(i) ==> stage_index(stage@) == Some(i as int),
        r is None ==> stage_index(stage@) is None,
{
    let table = stages();
    let mut i: usize = 0;
    while i < table.len()
        invariant
            table@.len() == stages_spec().len(),
            forall|j: int| 0 <= j < table@.len() ==> (#[trigger] table@[j]).0@ == stages_spec()[j].0
                && table@[j].1@ == stages_spec()[j].1,
            i <= table@.len(),
            forall|j: int| 0 <= j < i ==> stages_spec()[j].0 != stage@,
        decreases table@.len() - i,
    {
        if str_eq(table[i].0, stage) {
            return Some(i);
        }
        i = i + 1;
    }
    None
}

pub fn stage_label(stage: &str) -> (r: String)
    ensures
        r@ == stage_label_spec(stage@),
{
    let table = stages();
    match stage_position(stage) {
        Some(i) => string_from(table[i].1),
        None => string_from(stage),
    }
}

pub open spec fn stage_badge_class_spec(stage: Seq<char>) -> Seq<char> {
    if stage == "in_progress"@ {
        "wr-badge-progress"@
    } else if stage == "blocked"@ {
        "wr-badge-blocked"@
    } else if stage == "merged"@ {
        "wr-badge-merged"@
    } else if stage == "released"@ || stage == "done"@ {
        "wr-badge-done"@
    } else {
        "wr-badge-todo"@
    }
}

/// CSS modifier class for a stage badge (see `.wr-badge-*` in main.css).
pub fn stage_badge_class(stage: &str) -> (r: &'static str)
    ensures
        r@ == stage_badge_class_spec(stage@),
{
    if str_eq(stage, "in_progress") {
        "wr-badge-progress"
    } else if str_eq(stage, "blocked") {
        "wr-badge-blocked"
    } else if str_eq(stage, "merged") {
        "wr-badge-merged"
    } else if str_eq(stage, "released") || str_eq(stage, "done") {
        "wr-badge-done"
    } else {
        "wr-badge-todo"
    }
}

// ---------------------------------------------------------------------------
// GitHub links
// ---------------------------------------------------------------------------

pub open spec fn github_url_spec(repo: Seq<char>, ref_type: Option<Seq<char>>, number: int) -> Seq<
    char,
> {
    let segment = if ref_type == Some("issue"@) {
        "issues"@
    } else {
        "pull"@
    };
    "https://github.com/"@ + repo + "/"@ + segment + "/"@ + decimal(number)
}

/// Build a GitHub URL for an item given its group's `owner/repo`.
pub fn github_url(repo: &str, ref_type: Option<&str>, number: i64) -> (r: String)
    ensures
        r@ == github_url_spec(
            repo@,
            match ref_type {
                Some(t) => Some(t@),
                None => None,
            },
            number as int,
        ),
{
    let is_issue = match ref_type {
        Some(t) => str_eq(t, "issue"),
        None => false,
    };
    let mut s = String::new();
    push_str(&mut s, "https://github.com/");
    push_str(&mut s, repo);
    push_str(&mut s, "/");
    if is_issue {
        push_str(&mut s, "issues");
    } else {
        push_str(&mut s, "pull");
    }
    push_str(&mut s, "/");
    push_decimal(&mut s, number);
    s
}

// ---------------------------------------------------------------------------
// Group rollup status
// ---------------------------------------------------------------------------

/// A stage that counts as finished work.
pub open spec fn is_complete_stage(stage: Seq<char>) -> bool {
    stage == "merged"@ || stage == "released"@ || stage == "done"@
}

pub open spec fn any_blocked(stages: Seq<Seq<char>>) -> bool {
    exists|i: int| 0 <= i < stages.len() && stages[i] == "blocked"@
}

pub open spec fn all_complete(stages: Seq<Seq<char>>) -> bool {
    forall|i: int| 0 <= i < stages.len() ==> is_complete_stage(#[trigger] stages[i])
}

/// The furthest stage among `stages` in lifecycle order (first one wins a tie).
pub open spec fn furthest_stage(stages: Seq<Seq<char>>) -> Seq<char>
    decreases stages.len(),
{
    if stages.len() <= 1 {
        if stages.len() == 1 { stages[0] } else { Seq::empty() }
    } else {
        let rest = furthest_stage(stages.drop_last());
        let a = match stage_index(rest) { Some(i) => i, None => -1 };
        let b = match stage_index(stages.last()) { Some(i) => i, None => -1 };
        if b > a { stages.last() } else { rest }
    }
}

/// A group's overall status from its items' stages: none for an empty group,
/// "blocked" when any item is blocked, the furthest stage when every item is
/// complete, and "in_progress" otherwise.
pub open spec fn group_rollup_spec(stages: Seq<Seq<char>>) -> Option<Seq<char>> {
    if stages.len() == 0 {
        None
    } else if any_blocked(stages) {
        Some("blocked"@)
    } else if all_complete(stages) {
        Some(furthest_stage(stages))
    } else {
        Some("in_progress"@)
    }
}

pub open spec fn opt_view(o: Option<String>) -> Option<Seq<char>> {
    match o {
        Some(s) => Some(s@),
        None => None,
    }
}

pub open spec fn string_views(v: Seq<String>) -> Seq<Seq<char>> {
    v.map_values(|s: String| s@)
}

/// Overall status of a group, derived from its items' stages.
pub fn group_rollup_stage(stages: &[String]) -> (r: Option<String>)
    ensures
        r matches Some(s) ==> group_rollup_spec(string_views(stages@)) == Some(s@),
        r is None ==> group_rollup_spec(string_views(stages@)) is None,
{
    let ghost sv = string_views(stages@);
    if stages.len() == 0 {
        return None;
    }
    let mut blocked = false;
    let mut complete = true;
    let mut best: usize = 0;
    let mut best_rank: i64 = -1;
    let mut i: usize = 0;
    while i < stages.len()
        invariant
            sv == string_views(stages@),
            sv.len() == stages@.len(),
            0 < stages@.len(),
            i <= stages@.len(),
            blocked == any_blocked(sv.take(i as int)),
            complete == all_complete(sv.take(i as int)),
            i > 0 ==> best < i && furthest_stage(sv.take(i as int)) == sv[best as int],
            i > 0 ==> best_rank == match stage_index(sv[best as int]) { Some(k) => k, None => -1 },
        decreases stages@.len() - i,
    {
        let s = stages[i].as_str();
        assert(sv[i as int] == s@);
        assert(sv.take(i + 1).drop_last() == sv.take(i as int));
        assert(sv.take(i + 1).last() == sv[i as int]);
        let is_blocked = str_eq(s, "blocked");
        let is_done = str_eq(s, "merged") || str_eq(s, "released") || str_eq(s, "done");
        let rank: i64 = match stage_position(s) {
            Some(k) => k as i64,
            None => -1,
        };
        proof {
            let t = sv.take(i + 1);
            if is_blocked {
                assert(t[i as int] == "blocked"@);
            }
            if any_blocked(t) {
                let w = choose|w: int| 0 <= w < t.len() && t[w] == "blocked"@;
                if w < i {
                    assert(sv.take(i as int)[w] == "blocked"@);
                }
            }
            if !is_done {
                assert(!is_complete_stage(t[i as int]));
            }
            if complete && is_done {
                assert forall|w: int| 0 <= w < t.len() implies is_complete_stage(#[trigger] t[w]) by {
                    if w < i {
                        assert(t[w] == sv.take(i as int)[w]);
                    }
                }
            }
            if !complete {
                let w = choose|w: int| 0 <= w < i && !is_complete_stage(#[trigger] sv.take(i as int)[w]);
                assert(t[w] == sv.take(i as int)[w]);
            }
            if i == 0 {
                assert(t.len() == 1);
            }
        }
        blocked = blocked || is_blocked;
        complete = complete && is_done;
        if i == 0 || rank > best_rank {
            best = i;
            best_rank = rank;
        }
        i = i + 1;
    }
    assert(sv.take(stages@.len() as int) == sv);
    if blocked {
        Some(string_from("blocked"))
    } else if complete {
        Some(stages[best].clone())
    } else {
        Some(string_from("in_progress"))
    }
}

// ---------------------------------------------------------------------------
// Slack status emojis
// ---------------------------------------------------------------------------

/// The default Slack emoji for each stage.
pub open spec fn default_stage_emoji(stage: Seq<char>) -> Option<Seq<char>> {
    if stage == "todo"@ {
        Some(":white_circle:"@)
    } else if stage == "in_progress"@ {
        Some(":waiting:"@)
    } else if stage == "blocked"@ {
        Some(":red_circle:"@)
    } else if stage == "merged"@ {
        Some(":large_blue_circle:"@)
    } else if stage == "released"@ || stage == "done"@ {
        Some(":white_check_mark:"@)
    } else {
        None
    }
}

/// Default Slack emoji per stage.
pub fn default_stage_emojis() -> (m: TextMap<String>)
    ensures
        forall|k: Seq<char>| #[trigger] m.view().contains_key(k) <==> default_stage_emoji(k) is Some,
        forall|k: Seq<char>| #[trigger] m.view().contains_key(k) ==> Some(m.view()[k]@)
            == default_stage_emoji(k),
{
    let mut m = TextMap::new();
    let v0 = string_from(":white_circle:");
    let v1 = string_from(":waiting:");
    let v2 = string_from(":red_circle:");
    let v3 = string_from(":large_blue_circle:");
    let v4 = string_from(":white_check_mark:");
    let v5 = string_from(":white_check_mark:");
    let ghost (g0, g1, g2, g3, g4, g5) = (v0, v1, v2, v3, v4, v5);
    m.insert(string_from("todo"), v0);
    m.insert(string_from("in_progress"), v1);
    m.insert(string_from("blocked"), v2);
    m.insert(string_from("merged"), v3);
    m.insert(string_from("released"), v4);
    m.insert(string_from("done"), v5);
    proof {
        reveal_strlit("todo");
        reveal_strlit("in_progress");
        reveal_strlit("blocked");
        reveal_strlit("merged");
        reveal_strlit("released");
        reveal_strlit("done");
        reveal_strlit(":white_circle:");
        reveal_strlit(":waiting:");
        reveal_strlit(":red_circle:");
        reveal_strlit(":large_blue_circle:");
        reveal_strlit(":white_check_mark:");
        let mv = m.view();
        assert(mv == Map::<Seq<char>, String>::empty().insert("todo"@, g0).insert(
            "in_progress"@,
            g1,
        ).insert("blocked"@, g2).insert("merged"@, g3).insert("released"@, g4).insert(
            "done"@,
            g5,
        ));
        assert forall|k: Seq<char>| #[trigger] mv.contains_key(k) implies Some(mv[k]@)
            == default_stage_emoji(k) by {
            assert(g0@ == ":white_circle:"@);
            assert(g1@ == ":waiting:"@);
            assert(g2@ == ":red_circle:"@);
            assert(g3@ == ":large_blue_circle:"@);
            assert(g4@ == ":white_check_mark:"@);
            assert(g5@ == ":white_check_mark:"@);
            assert("todo"@[0] == 't' && "in_progress"@[0] == 'i' && "blocked"@[0] == 'b');
            assert("merged"@[0] == 'm' && "released"@[0] == 'r' && "done"@[0] == 'd');
            assert("in_progress"@ != "todo"@);
        }
    }
    m
}


// ---------------------------------------------------------------------------
// Copies
// ---------------------------------------------------------------------------

pub fn copy_opt_string(o: &Option<String>) -> (r: Option<String>)
    ensures
        r == *o,
{
    match o {
        Some(s) => Some(s.clone()),
        None => None,
    }
}

pub fn copy_checklist(v: &Vec<ChecklistItem>) -> (r: Vec<ChecklistItem>)
    ensures
        r@ == v@,
{
    let mut r: Vec<ChecklistItem> = Vec::new();
    let mut i: usize = 0;
    while i < v.len()
        invariant
            i <= v@.len(),
            r@ == v@.take(i as int),
        decreases v@.len() - i,
    {
        r.push(ChecklistItem { text: v[i].text.clone(), done: v[i].done });
        assert(r@ == v@.take(i + 1));
        i = i + 1;
    }
    assert(v@.take(v@.len() as int) == v@);
    r
}

/// A field-for-field copy of an item.
pub fn copy_item(i: &WarRoomItem) -> (r: WarRoomItem)
    ensures
        r == *i,
{
    WarRoomItem {
        id: i.id,
        group_id: i.group_id,
        label: i.label.clone(),
        ref_type: copy_opt_string(&i.ref_type),
        ref_number: i.ref_number,
        note: i.note.clone(),
        stage: i.stage.clone(),
        checklist: i.checklist.clone(),
        depends_on: i.depends_on,
        source_item_id: i.source_item_id,
        position: i.position,
        created_at: i.created_at.clone(),
        updated_at: i.updated_at.clone(),
    }
}

// ---------------------------------------------------------------------------
// Item index: id -> (item, owning group's repo, owning group's name)
// ---------------------------------------------------------------------------

#[derive(Clone, Debug)]
pub struct IndexEntry {
    pub id: i64,
    pub item: WarRoomItem,
    pub repo: Option<String>,
    pub group_name: String,
}

/// Resolution map from item id to the item and its group's repo and name;
/// where an id occurs twice the later entry wins, as with a map built by
/// inserting in order.
#[derive(Clone, Debug)]
pub struct ItemIndex {
    pub entries: Vec<IndexEntry>,
}

pub open spec fn group_entries(g: GroupWithItems) -> Seq<IndexEntry> {
    g.items@.map_values(
        |i: WarRoomItem|
            IndexEntry { id: i.id, item: i, repo: g.group.repo, group_name: g.group.name },
    )
}

/// Every item of every group, in order, with its group's repo and name.
pub open spec fn index_entries(groups: Seq<GroupWithItems>) -> Seq<IndexEntry>
    decreases groups.len(),
{
    if groups.len() == 0 {
        Seq::empty()
    } else {
        index_entries(groups.drop_last()) + group_entries(groups.last())
    }
}

/// The last entry with this id.
pub open spec fn index_lookup(e: Seq<IndexEntry>, id: i64) -> Option<IndexEntry>
    decreases e.len(),
{
    if e.len() == 0 {
        None
    } else if e.last().id == id {
        Some(e.last())
    } else {
        index_lookup(e.drop_last(), id)
    }
}

/// The id → item map of a war room's groups.
pub fn build_item_index(groups: &[GroupWithItems]) -> (r: ItemIndex)
    ensures
        r.entries@ == index_entries(groups@),
{
    let mut entries: Vec<IndexEntry> = Vec::new();
    let mut g: usize = 0;
    while g < groups.len()
        invariant
            g <= groups@.len(),
            entries@ == index_entries(groups@.take(g as int)),
        decreases groups@.len() - g,
    {
        let grp = &groups[g];
        let ghost before = entries@;
        let mut k: usize = 0;
        while k < grp.items.len()
            invariant
                k <= grp.items@.len(),
                *grp == groups@[g as int],
                entries@ == before + group_entries(*grp).take(k as int),
            decreases grp.items@.len() - k,
        {
            let it = &grp.items[k];
            entries.push(
                IndexEntry {
                    id: it.id,
                    item: copy_item(it),
                    repo: copy_opt_string(&grp.group.repo),
                    group_name: grp.group.name.clone(),
                },
            );
            assert(group_entries(*grp).take(k + 1) == group_entries(*grp).take(k as int).push(
                group_entries(*grp)[k as int],
            ));
            k = k + 1;
        }
        assert(group_entries(*grp).take(grp.items@.len() as int) == group_entries(*grp));
        assert(groups@.take(g + 1).drop_last() == groups@.take(g as int));
        g = g + 1;
    }
    assert(groups@.take(groups@.len() as int) == groups@);
    ItemIndex { entries }
}

impl ItemIndex {
    /// `HashMap::get`: the entry for `id`.
    pub fn get(&self, id: i64) -> (r: Option<&IndexEntry>)
        ensures
            r matches Some(e) ==> index_lookup(self.entries@, id) == Some(*e),
            r is None ==> index_lookup(self.entries@, id) is None,
    {
        let mut i: usize = self.entries.len();
        assert(self.entries@.take(i as int) == self.entries@);
        while i > 0
            invariant
                i <= self.entries@.len(),
                index_lookup(self.entries@, id) == index_lookup(self.entries@.take(i as int), id),
            decreases i,
        {
            assert(self.entries@.take(i as int).drop_last() == self.entries@.take(i - 1));
            if self.entries[i - 1].id == id {
                return Some(&self.entries[i - 1]);
            }
            i = i - 1;
        }
        None
    }
}

/// A mirror row shows its source item's stage.
pub open spec fn effective_stage_spec(item: WarRoomItem, idx: Seq<IndexEntry>) -> Seq<char> {
    match item.source_item_id {
        Some(sid) => match index_lookup(idx, sid) {
            Some(e) => e.item.stage@,
            None => item.stage@,
        },
        None => item.stage@,
    }
}

/// A mirror row's displayed stage comes from its source item.
pub fn effective_stage(item: &WarRoomItem, index: &ItemIndex) -> (r: String)
    ensures
        r@ == effective_stage_spec(*item, index.entries@),
{
    match item.source_item_id {
        Some(sid) => match index.get(sid) {
            Some(e) => e.item.stage.clone(),
            None => item.stage.clone(),
        },
        None => item.stage.clone(),
    }
}

/// A mirror row is labelled with its source group and source label.
pub open spec fn slack_item_label_spec(item: WarRoomItem, idx: Seq<IndexEntry>) -> Seq<char> {
    match item.source_item_id {
        Some(sid) => match index_lookup(idx, sid) {
            Some(e) => e.group_name@ + " / "@ + e.item.label@,
            None => item.label@,
        },
        None => item.label@,
    }
}

/// Label for the Slack update. A mirror row is prefixed with its source group
/// (e.g. "Envoy Releases / v1.37.4") so linked items are unambiguous.
pub fn slack_item_label(item: &WarRoomItem, index: &ItemIndex) -> (r: String)
    ensures
        r@ == slack_item_label_spec(*item, index.entries@),
{
    match item.source_item_id {
        Some(sid) => match index.get(sid) {
            Some(e) => {
                let mut s = e.group_name.clone();
                push_str(&mut s, " / ");
                push_str(&mut s, e.item.label.as_str());
                s
            },
            None => item.label.clone(),
        },
        None => item.label.clone(),
    }
}

// ---------------------------------------------------------------------------
// Product / version split
// ---------------------------------------------------------------------------

/// Index of the last whitespace character of `s`.
pub open spec fn rfind_ws(s: Seq<char>) -> Option<int>
    decreases s.len(),
{
    if s.len() == 0 {
        None
    } else if is_ws(s.last()) {
        Some(s.len() - 1)
    } else {
        rfind_ws(s.drop_last())
    }
}

/// Starts with a digit, after dropping one leading `v`.
pub open spec fn looks_versioned(last: Seq<char>) -> bool {
    let t = if last.len() > 0 && last[0] == 'v' {
        last.drop_first()
    } else {
        last
    };
    t.len() > 0 && '0' <= t[0] <= '9'
}

/// `(product, Some(version))` when the trimmed name ends in a word that looks
/// like a version; `(trimmed name, None)` otherwise.
pub open spec fn split_product_version_spec(name: Seq<char>) -> (Seq<char>, Option<Seq<char>>) {
    let t = trim(name);
    match rfind_ws(t) {
        Some(p) => {
            let last = trim(t.subrange(p + 1, t.len() as int));
            if looks_versioned(last) {
                (trim(t.take(p)), Some(last))
            } else {
                (t, None)
            }
        },
        None => (t, None),
    }
}

/// The name can be split without slicing inside a character: its last
/// whitespace character (after trimming), if any, is one byte long.
pub open spec fn split_product_version_ok(name: Seq<char>) -> bool {
    rfind_ws(trim(name)) matches Some(p) ==> (trim(name)[p] as u32) < 0x80
}

fn rfind_ws_exec(cs: &[char]) -> (r: Option<usize>)
    ensures
        r matches Some(p) ==> rfind_ws(cs@) == Some(p as int) && p < cs@.len(),
        r is None ==> rfind_ws(cs@) is None,
{
    let mut i: usize = cs.len();
    assert(cs@.take(cs@.len() as int) == cs@);
    while i > 0
        invariant
            i <= cs@.len(),
            rfind_ws(cs@) == rfind_ws(cs@.take(i as int)),
        decreases i,
    {
        assert(cs@.take(i as int).drop_last() == cs@.take(i - 1));
        if is_whitespace(cs[i - 1]) {
            return Some(i - 1);
        }
        i = i - 1;
    }
    None
}

/// Split a group name into `(product, Some(version))` when it ends in a version
/// token (e.g. "kgateway OSS v2.3.3" → ("kgateway OSS", "v2.3.3")). Groups with
/// no trailing version (e.g. "Envoy Releases") return `(name, None)`.
pub fn split_product_version(name: &str) -> (r: (String, Option<String>))
    requires
        split_product_version_ok(name@),
    ensures
        r.0@ == split_product_version_spec(name@).0,
        match r.1 {
            Some(v) => split_product_version_spec(name@).1 == Some(v@),
            None => split_product_version_spec(name@).1 is None,
        },
{
    let cs = chars_of(name);
    let t = trim_chars(cs.as_slice());
    match rfind_ws_exec(t.as_slice()) {
        Some(p) => {
            let tail = slice_range(t.as_slice(), p + 1, t.len());
            let last = trim_chars(tail.as_slice());
            let n = last.len();
            let versioned = if n > 0 && last[0] == 'v' {
                n > 1 && last[1] >= '0' && last[1] <= '9'
            } else {
                n > 0 && last[0] >= '0' && last[0] <= '9'
            };
            proof {
                if n > 0 && last@[0] == 'v' {
                    if n > 1 {
                        assert(last@.drop_first()[0] == last@[1]);
                    }
                }
            }
            if versioned {
                let head = slice_range(t.as_slice(), 0, p);
                let product = trim_chars(head.as_slice());
                (crate::text::string_of(product.as_slice()), Some(crate::text::string_of(last.as_slice())))
            } else {
                (crate::text::string_of(t.as_slice()), None)
            }
        },
        None => (crate::text::string_of(t.as_slice()), None),
    }
}

// ---------------------------------------------------------------------------
// Slack update
// ---------------------------------------------------------------------------

/// The emoji configured for a stage, or nothing.
pub open spec fn emoji_for(em: Map<Seq<char>, String>, stage: Seq<char>) -> Seq<char> {
    if em.contains_key(stage) {
        em[stage]@
    } else {
        Seq::empty()
    }
}

/// One bullet: `{indent}- {emoji} {label}` with ` ({note})` when the trimmed
/// note is not empty.
pub open spec fn bullet_line(indent: Seq<char>, e: Seq<char>, lbl: Seq<char>, note: Seq<char>) -> Seq<
    char,
> {
    indent + "- "@ + e + " "@ + lbl + if note.len() == 0 {
        "\n"@
    } else {
        " ("@ + note + ")\n"@
    }
}

/// The bullets of a group's items.
pub open spec fn items_text(
    items: Seq<WarRoomItem>,
    idx: Seq<IndexEntry>,
    em: Map<Seq<char>, String>,
    indent: Seq<char>,
) -> Seq<char>
    decreases items.len(),
{
    if items.len() == 0 {
        Seq::empty()
    } else {
        let i = items.last();
        items_text(items.drop_last(), idx, em, indent) + bullet_line(
            indent,
            emoji_for(em, effective_stage_spec(i, idx)),
            slack_item_label_spec(i, idx),
            trim(i.note@),
        )
    }
}

pub open spec fn item_stages(items: Seq<WarRoomItem>, idx: Seq<IndexEntry>) -> Seq<Seq<char>> {
    items.map_values(|i: WarRoomItem| effective_stage_spec(i, idx))
}

/// The text one group adds, and the product header in force after it.
pub open spec fn group_text(
    g: GroupWithItems,
    idx: Seq<IndexEntry>,
    em: Map<Seq<char>, String>,
    details: bool,
    last_header: Option<Seq<char>>,
) -> (Seq<char>, Option<Seq<char>>) {
    let (product, version) = split_product_version_spec(g.group.name@);
    match version {
        Some(ver) => {
            let header = if last_header != Some(product) {
                "\n"@ + product + ":\n"@
            } else {
                Seq::empty()
            };
            let emoji = match group_rollup_spec(item_stages(g.items@, idx)) {
                Some(st) => emoji_for(em, st),
                None => Seq::empty(),
            };
            let sub = if details {
                items_text(g.items@, idx, em, "    "@)
            } else {
                Seq::empty()
            };
            (header + "- "@ + emoji + " "@ + ver + "\n"@ + sub, Some(product))
        },
        None => ("\n"@ + g.group.name@ + ":\n"@ + items_text(g.items@, idx, em, Seq::empty()), None),
    }
}

/// The text of `groups`, given the product header written last.
pub open spec fn slack_groups(
    groups: Seq<GroupWithItems>,
    idx: Seq<IndexEntry>,
    em: Map<Seq<char>, String>,
    details: bool,
    last_header: Option<Seq<char>>,
) -> Seq<char>
    decreases groups.len(),
{
    if groups.len() == 0 {
        Seq::empty()
    } else {
        let (t, h) = group_text(groups[0], idx, em, details, last_header);
        t + slack_groups(groups.drop_first(), idx, em, details, h)
    }
}

/// The whole Slack status update.
pub open spec fn slack_update_spec(
    room_name: Seq<char>,
    groups: Seq<GroupWithItems>,
    idx: Seq<IndexEntry>,
    em: Map<Seq<char>, String>,
    details: bool,
) -> Seq<char> {
    "Here is the latest status on "@ + room_name + ":\n"@ + slack_groups(groups, idx, em, details, None)
}

/// Every group name can be split into product and version.
pub open spec fn group_names_ok(groups: Seq<GroupWithItems>) -> bool {
    forall|i: int| 0 <= i < groups.len() ==> split_product_version_ok(#[trigger] groups[i].group.name@)
}

fn emoji_of(emojis: &TextMap<String>, stage: &String) -> (r: String)
    ensures
        r@ == emoji_for(emojis.view(), stage@),
{
    match emojis.get(stage) {
        Some(e) => e.clone(),
        None => String::new(),
    }
}

fn push_items(
    out: &mut String,
    items: &Vec<WarRoomItem>,
    index: &ItemIndex,
    emojis: &TextMap<String>,
    indent: &str,
)
    ensures
        final(out)@ == old(out)@ + items_text(items@, index.entries@, emojis.view(), indent@),
{
    let mut k: usize = 0;
    while k < items.len()
        invariant
            k <= items@.len(),
            out@ == old(out)@ + items_text(items@.take(k as int), index.entries@, emojis.view(), indent@),
        decreases items@.len() - k,
    {
        let i = &items[k];
        let st = effective_stage(i, index);
        let e = emoji_of(emojis, &st);
        let lbl = slack_item_label(i, index);
        let nc = chars_of(i.note.as_str());
        let note = trim_chars(nc.as_slice());
        push_str(out, indent);
        push_str(out, "- ");
        push_str(out, e.as_str());
        push_str(out, " ");
        push_str(out, lbl.as_str());
        if note.len() == 0 {
            push_str(out, "\n");
        } else {
            push_str(out, " (");
            push_chars(out, note.as_slice());
            push_str(out, ")\n");
        }
        assert(items@.take(k + 1).drop_last() == items@.take(k as int));
        assert(items@.take(k + 1).last() == items@[k as int]);
        k = k + 1;
    }
    assert(items@.take(items@.len() as int) == items@);
}

fn item_stage_list(items: &Vec<WarRoomItem>, index: &ItemIndex) -> (r: Vec<String>)
    ensures
        string_views(r@) == item_stages(items@, index.entries@),
{
    let mut r: Vec<String> = Vec::new();
    let mut k: usize = 0;
    while k < items.len()
        invariant
            k <= items@.len(),
            string_views(r@) == item_stages(items@.take(k as int), index.entries@),
        decreases items@.len() - k,
    {
        let s = effective_stage(&items[k], index);
        let ghost old_r = r@;
        r.push(s);
        assert(string_views(r@) =~= string_views(old_r).push(s@));
        assert(items@.take(k + 1) == items@.take(k as int).push(items@[k as int]));
        assert(item_stages(items@.take(k + 1), index.entries@) =~= item_stages(
            items@.take(k as int),
            index.entries@,
        ).push(effective_stage_spec(items@[k as int], index.entries@)));
        k = k + 1;
    }
    assert(items@.take(items@.len() as int) == items@);
    r
}

#[verifier::rlimit(40)]
fn push_group(
    out: &mut String,
    gi: &GroupWithItems,
    index: &ItemIndex,
    emojis: &TextMap<String>,
    include_details: bool,
    last_header: &mut Option<String>,
)
    requires
        split_product_version_ok(gi.group.name@),
    ensures
        final(out)@ == old(out)@ + group_text(
            *gi,
            index.entries@,
            emojis.view(),
            include_details,
            opt_view(*old(last_header)),
        ).0,
        opt_view(*final(last_header)) == group_text(
            *gi,
            index.entries@,
            emojis.view(),
            include_details,
            opt_view(*old(last_header)),
        ).1,
{
    let ghost idx = index.entries@;
    let ghost em = emojis.view();
    let ghost lh = opt_view(*last_header);
    let (product, version) = split_product_version(gi.group.name.as_str());
    let ghost before = out@;
    match version {
        Some(ver) => {
            let same = match last_header {
                Some(h) => crate::text_map::compare_str(h, &product) == 0,
                None => false,
            };
            if !same {
                push_str(out, "\n");
                push_str(out, product.as_str());
                push_str(out, ":\n");
            }
            let stages = item_stage_list(&gi.items, index);
            let emoji = match group_rollup_stage(stages.as_slice()) {
                Some(st) => emoji_of(emojis, &st),
                None => String::new(),
            };
            push_str(out, "- ");
            push_str(out, emoji.as_str());
            push_str(out, " ");
            push_str(out, ver.as_str());
            push_str(out, "\n");
            let ghost mid = out@;
            if include_details {
                push_items(out, &gi.items, index, emojis, "    ");
            }
            proof {
                let header: Seq<char> = if lh != Some(product@) {
                    "\n"@ + product@ + ":\n"@
                } else {
                    Seq::empty()
                };
                assert(mid == before + header + "- "@ + emoji@ + " "@ + ver@ + "\n"@);
            }
            *last_header = Some(product);
        },
        None => {
            push_str(out, "\n");
            push_str(out, gi.group.name.as_str());
            push_str(out, ":\n");
            push_items(out, &gi.items, index, emojis, "");
            proof {
                assert(""@ == Seq::<char>::empty()) by {
                    reveal_strlit("");
                }
            }
            *last_header = None;
        },
    }
}

/// Build a Slack-ready status update. Groups sharing a product prefix are nested
/// under one header; each release is a bullet whose emoji is the group's rollup
/// status, with its items as an indented sub-list. Groups with no version suffix
/// list their items directly. When `include_details` is false, the per-release
/// item sub-list is omitted (product + version headlines only).
pub fn generate_slack_update(
    room_name: &str,
    groups: &[GroupWithItems],
    index: &ItemIndex,
    emojis: &TextMap<String>,
    include_details: bool,
) -> (r: String)
    requires
        group_names_ok(groups@),
    ensures
        r@ == slack_update_spec(room_name@, groups@, index.entries@, emojis.view(), include_details),
{
    let ghost idx = index.entries@;
    let ghost em = emojis.view();
    let mut out = string_from("Here is the latest status on ");
    push_str(&mut out, room_name);
    push_str(&mut out, ":\n");
    let ghost prefix = out@;
    let mut last_header: Option<String> = None;
    let mut g: usize = 0;
    assert(groups@.skip(0) == groups@);
    while g < groups.len()
        invariant
            g <= groups@.len(),
            group_names_ok(groups@),
            idx == index.entries@,
            em == emojis.view(),
            out@ + slack_groups(
                groups@.skip(g as int),
                idx,
                em,
                include_details,
                opt_view(last_header),
            ) == prefix + slack_groups(groups@, idx, em, include_details, None),
        decreases groups@.len() - g,
    {
        let gi = &groups[g];
        assert(groups@.skip(g as int)[0] == groups@[g as int]);
        assert(groups@.skip(g as int).drop_first() == groups@.skip(g + 1));
        assert(split_product_version_ok(groups@[g as int].group.name@));
        push_group(&mut out, gi, index, emojis, include_details, &mut last_header);
        g = g + 1;
    }
    out
}


// ---------------------------------------------------------------------------
// Replace-style mappers: every field of the record is carried
// ---------------------------------------------------------------------------

/// An update payload that rewrites the item with its current values; the
/// checklist is the item's stored checklist, already decoded.
pub fn item_to_update(item: &WarRoomItem, checklist: Vec<ChecklistItem>, position: Option<i64>) -> (r:
    UpdateItemInput)
    ensures
        r == (UpdateItemInput {
            label: Some(item.label),
            ref_type: item.ref_type,
            ref_number: item.ref_number,
            note: Some(item.note),
            stage: Some(item.stage),
            checklist: Some(checklist),
            depends_on: item.depends_on,
            position,
        }),
{
    UpdateItemInput {
        label: Some(item.label.clone()),
        ref_type: copy_opt_string(&item.ref_type),
        ref_number: item.ref_number,
        note: Some(item.note.clone()),
        stage: Some(item.stage.clone()),
        checklist: Some(checklist),
        depends_on: item.depends_on,
        position,
    }
}

/// Snapshot an item into a create payload — an independent copy (not a
/// mirror); the checklist is the item's stored checklist, already decoded.
pub fn item_to_create(item: &WarRoomItem, checklist: Vec<ChecklistItem>) -> (r: CreateItemInput)
    ensures
        r == (CreateItemInput {
            label: item.label,
            ref_type: item.ref_type,
            ref_number: item.ref_number,
            note: Some(item.note),
            stage: Some(item.stage),
            checklist: Some(checklist),
            depends_on: item.depends_on,
            source_item_id: None,
        }),
{
    CreateItemInput {
        label: item.label.clone(),
        ref_type: copy_opt_string(&item.ref_type),
        ref_number: item.ref_number,
        note: Some(item.note.clone()),
        stage: Some(item.stage.clone()),
        checklist: Some(checklist),
        depends_on: item.depends_on,
        source_item_id: None,
    }
}

pub fn create_to_update_item(c: CreateItemInput) -> (r: UpdateItemInput)
    ensures
        r == (UpdateItemInput {
            label: Some(c.label),
            ref_type: c.ref_type,
            ref_number: c.ref_number,
            note: c.note,
            stage: c.stage,
            checklist: c.checklist,
            depends_on: c.depends_on,
            position: None,
        }),
{
    UpdateItemInput {
        label: Some(c.label),
        ref_type: c.ref_type,
        ref_number: c.ref_number,
        note: c.note,
        stage: c.stage,
        checklist: c.checklist,
        depends_on: c.depends_on,
        position: None,
    }
}

pub fn group_to_update(g: &WarRoomGroup, position: Option<i64>) -> (r: UpdateGroupInput)
    ensures
        r == (UpdateGroupInput {
            name: Some(g.name),
            repo_id: g.repo_id,
            repo: g.repo,
            position,
        }),
{
    UpdateGroupInput {
        name: Some(g.name.clone()),
        repo_id: g.repo_id,
        repo: copy_opt_string(&g.repo),
        position,
    }
}

pub fn create_to_update_group(c: CreateGroupInput, position: Option<i64>) -> (r: UpdateGroupInput)
    ensures
        r == (UpdateGroupInput { name: Some(c.name), repo_id: c.repo_id, repo: c.repo, position }),
{
    UpdateGroupInput { name: Some(c.name), repo_id: c.repo_id, repo: c.repo, position }
}

// ---------------------------------------------------------------------------
// Dependency choices
// ---------------------------------------------------------------------------

/// Items that are not mirrors, as `(id, "Group / Label")`.
pub open spec fn item_options(items: Seq<WarRoomItem>, gname: Seq<char>) -> Seq<(i64, Seq<char>)>
    decreases items.len(),
{
    if items.len() == 0 {
        Seq::empty()
    } else {
        let rest = item_options(items.drop_last(), gname);
        let i = items.last();
        if i.source_item_id is None {
            rest.push((i.id, gname + " / "@ + i.label@))
        } else {
            rest
        }
    }
}

/// Depends-on choices over all groups: each real item once, mirrors left out.
pub open spec fn dependency_options_spec(groups: Seq<GroupWithItems>) -> Seq<(i64, Seq<char>)>
    decreases groups.len(),
{
    if groups.len() == 0 {
        Seq::empty()
    } else {
        dependency_options_spec(groups.drop_last()) + item_options(
            groups.last().items@,
            groups.last().group.name@,
        )
    }
}

pub open spec fn option_views(v: Seq<(i64, String)>) -> Seq<(i64, Seq<char>)> {
    v.map_values(|p: (i64, String)| (p.0, p.1@))
}

/// The depends-on options of the item dialog, shown as "Group / Title".
/// Mirror rows are excluded so each real item appears once.
pub fn dependency_options(groups: &[GroupWithItems]) -> (r: Vec<(i64, String)>)
    ensures
        option_views(r@) == dependency_options_spec(groups@),
{
    let mut r: Vec<(i64, String)> = Vec::new();
    let mut g: usize = 0;
    while g < groups.len()
        invariant
            g <= groups@.len(),
            option_views(r@) == dependency_options_spec(groups@.take(g as int)),
        decreases groups@.len() - g,
    {
        let grp = &groups[g];
        let ghost before = option_views(r@);
        let mut k: usize = 0;
        while k < grp.items.len()
            invariant
                k <= grp.items@.len(),
                *grp == groups@[g as int],
                option_views(r@) == before + item_options(grp.items@.take(k as int), grp.group.name@),
            decreases grp.items@.len() - k,
        {
            let it = &grp.items[k];
            let ghost old_r = r@;
            assert(grp.items@.take(k + 1).drop_last() == grp.items@.take(k as int));
            assert(grp.items@.take(k + 1).last() == *it);
            if it.source_item_id.is_none() {
                let mut label = grp.group.name.clone();
                push_str(&mut label, " / ");
                push_str(&mut label, it.label.as_str());
                r.push((it.id, label));
                assert(option_views(r@) =~= option_views(old_r).push((it.id, label@)));
            }
            k = k + 1;
        }
        assert(grp.items@.take(grp.items@.len() as int) == grp.items@);
        assert(groups@.take(g + 1).drop_last() == groups@.take(g as int));
        g = g + 1;
    }
    assert(groups@.take(groups@.len() as int) == groups@);
    r
}

// ---------------------------------------------------------------------------
// Item rows
// ---------------------------------------------------------------------------

/// What an item row shows: a mirror row shows its source item with the
/// source group's repo, and names the source group (or "removed" when the
/// source is gone); a plain row shows itself with its group's repo.
pub open spec fn row_display_spec(item: WarRoomItem, repo: Option<String>, idx: Seq<IndexEntry>) -> (
    WarRoomItem,
    Option<String>,
    Option<Seq<char>>,
) {
    match item.source_item_id {
        Some(sid) => match index_lookup(idx, sid) {
            Some(e) => (e.item, e.repo, Some(e.group_name@)),
            None => (item, repo, Some("removed"@)),
        },
        None => (item, repo, None),
    }
}

/// The item, repo and source group name an item row displays.
pub fn row_display(item: &WarRoomItem, repo: &Option<String>, index: &ItemIndex) -> (r: (
    WarRoomItem,
    Option<String>,
    Option<String>,
))
    ensures
        r.0 == row_display_spec(*item, *repo, index.entries@).0,
        r.1 == row_display_spec(*item, *repo, index.entries@).1,
        opt_view(r.2) == row_display_spec(*item, *repo, index.entries@).2,
{
    match item.source_item_id {
        Some(sid) => match index.get(sid) {
            Some(e) => (copy_item(&e.item), copy_opt_string(&e.repo), Some(e.group_name.clone())),
            None => (copy_item(item), copy_opt_string(repo), Some("removed".to_owned())),
        },
        None => (copy_item(item), copy_opt_string(repo), None),
    }
}

pub open spec fn done_count_spec(c: Seq<ChecklistItem>) -> nat
    decreases c.len(),
{
    if c.len() == 0 {
        0
    } else {
        done_count_spec(c.drop_last()) + if c.last().done {
            1nat
        } else {
            0nat
        }
    }
}

/// How many checklist steps are ticked.
pub fn done_count(checklist: &Vec<ChecklistItem>) -> (n: usize)
    ensures
        n == done_count_spec(checklist@),
{
    let mut n: usize = 0;
    let mut i: usize = 0;
    while i < checklist.len()
        invariant
            i <= checklist@.len(),
            n == done_count_spec(checklist@.take(i as int)),
            n <= i,
        decreases checklist@.len() - i,
    {
        assert(checklist@.take(i + 1).drop_last() == checklist@.take(i as int));
        if checklist[i].done {
            n = n + 1;
        }
        i = i + 1;
    }
    assert(checklist@.take(checklist@.len() as int) == checklist@);
    n
}

/// The GitHub link of an item row: when the repo is set and non-empty and
/// the item has a number.
pub fn item_link(repo: &Option<String>, item: &WarRoomItem) -> (r: Option<String>)
    ensures
        match (*repo, item.ref_number) {
            (Some(rp), Some(n)) => if rp@.len() > 0 {
                match r {
                    Some(u) => u@ == github_url_spec(
                        rp@,
                        match item.ref_type {
                            Some(t) => Some(t@),
                            None => None,
                        },
                        n as int,
                    ),
                    None => false,
                }
            } else {
                r is None
            },
            _ => r is None,
        },
{
    match (repo, item.ref_number) {
        (Some(rp), Some(n)) => {
            if rp.as_str().is_empty() {
                None
            } else {
                let t = match &item.ref_type {
                    Some(t) => Some(t.as_str()),
                    None => None,
                };
                Some(github_url(rp.as_str(), t, n))
            }
        },
        _ => None,
    }
}

/// The "depends on" badge of an item: the dependency's label and stage.
pub fn dependency_label(item: &WarRoomItem, index: &ItemIndex) -> (r: Option<String>)
    ensures
        match item.depends_on {
            Some(d) => match index_lookup(index.entries@, d) {
                Some(e) => match r {
                    Some(l) => l@ == e.item.label@ + " ("@ + stage_label_spec(e.item.stage@) + ")"@,
                    None => false,
                },
                None => r is None,
            },
            None => r is None,
        },
{
    match item.depends_on {
        Some(d) => match index.get(d) {
            Some(e) => {
                let mut l = e.item.label.clone();
                push_str(&mut l, " (");
                let st = stage_label(e.item.stage.as_str());
                push_str(&mut l, st.as_str());
                push_str(&mut l, ")");
                Some(l)
            },
            None => None,
        },
        None => None,
    }
}

/// The neighbour a group or item at `index` swaps positions with when moved
/// by `delta`; `None` when that falls outside the list.
pub fn neighbour(index: usize, delta: i32, len: usize) -> (r: Option<usize>)
    ensures
        match r {
            Some(t) => t == index + delta && t < len,
            None => !(0 <= index + delta < len),
        },
{
    if delta < 0 {
        let d: usize = if delta == i32::MIN {
            2147483648
        } else {
            (-delta) as usize
        };
        if d > index {
            None
        } else if index - d < len {
            Some(index - d)
        } else {
            None
        }
    } else {
        let d = delta as usize;
        if index >= len || d >= len - index {
            None
        } else {
            Some(index + d)
        }
    }
}

// ---------------------------------------------------------------------------
// Linking (mirroring) items
// ---------------------------------------------------------------------------

/// The first group with id `gid`.
pub open spec fn first_group(groups: Seq<GroupWithItems>, gid: i64) -> Option<GroupWithItems>
    decreases groups.len(),
{
    if groups.len() == 0 {
        None
    } else {
        match first_group(groups.drop_last(), gid) {
            Some(g) => Some(g),
            None => if groups.last().group.id == gid {
                Some(groups.last())
            } else {
                None
            },
        }
    }
}

/// The source ids of the mirrors among `items`.
pub open spec fn source_ids(items: Seq<WarRoomItem>) -> Seq<i64>
    decreases items.len(),
{
    if items.len() == 0 {
        Seq::empty()
    } else {
        let rest = source_ids(items.drop_last());
        match items.last().source_item_id {
            Some(sid) => rest.push(sid),
            None => rest,
        }
    }
}

/// The items group `gid` already mirrors.
pub open spec fn already_linked(groups: Seq<GroupWithItems>, gid: i64) -> Seq<i64> {
    match first_group(groups, gid) {
        Some(g) => source_ids(g.items@),
        None => Seq::empty(),
    }
}

/// Items of one group that can be mirrored: not mirrors themselves and not
/// mirrored already, as `(id, "Group / Label")`.
pub open spec fn linkable(items: Seq<WarRoomItem>, gname: Seq<char>, already: Seq<i64>) -> Seq<
    (i64, Seq<char>),
>
    decreases items.len(),
{
    if items.len() == 0 {
        Seq::empty()
    } else {
        let rest = linkable(items.drop_last(), gname, already);
        let i = items.last();
        if i.source_item_id is None && !already.contains(i.id) {
            rest.push((i.id, gname + " / "@ + i.label@))
        } else {
            rest
        }
    }
}

/// The choices of the "Link an item" dialog for group `gid`: linkable items
/// of every other group, in order.
pub open spec fn link_candidates_spec(groups: Seq<GroupWithItems>, gid: i64, already: Seq<i64>) -> Seq<
    (i64, Seq<char>),
>
    decreases groups.len(),
{
    if groups.len() == 0 {
        Seq::empty()
    } else {
        let rest = link_candidates_spec(groups.drop_last(), gid, already);
        let g = groups.last();
        if g.group.id != gid {
            rest + linkable(g.items@, g.group.name@, already)
        } else {
            rest
        }
    }
}

fn already_linked_exec(groups: &[GroupWithItems], gid: i64) -> (r: Vec<i64>)
    ensures
        r@ == already_linked(groups@, gid),
{
    let mut g: usize = 0;
    while g < groups.len()
        invariant
            g <= groups@.len(),
            first_group(groups@.take(g as int), gid) is None,
        decreases groups@.len() - g,
    {
        assert(groups@.take(g + 1).drop_last() == groups@.take(g as int));
        assert(groups@.take(g + 1).last() == groups@[g as int]);
        if groups[g].group.id == gid {
            proof {
                lemma_first_group_prefix(groups@, gid, g + 1);
            }
            let items = &groups[g].items;
            let mut r: Vec<i64> = Vec::new();
            let mut k: usize = 0;
            while k < items.len()
                invariant
                    k <= items@.len(),
                    r@ == source_ids(items@.take(k as int)),
                decreases items@.len() - k,
            {
                assert(items@.take(k + 1).drop_last() == items@.take(k as int));
                assert(items@.take(k + 1).last() == items@[k as int]);
                if let Some(sid) = items[k].source_item_id {
                    r.push(sid);
                }
                k = k + 1;
            }
            assert(items@.take(items@.len() as int) == items@);
            return r;
        }
        g = g + 1;
    }
    proof {
        assert(groups@.take(groups@.len() as int) == groups@);
    }
    Vec::new()
}

proof fn lemma_first_group_prefix(groups: Seq<GroupWithItems>, gid: i64, n: int)
    requires
        0 < n <= groups.len(),
        first_group(groups.take(n), gid) is Some,
    ensures
        first_group(groups, gid) == first_group(groups.take(n), gid),
    decreases groups.len() - n,
{
    if n < groups.len() {
        assert(groups.take(n + 1).drop_last() == groups.take(n));
        lemma_first_group_prefix(groups, gid, n + 1);
    } else {
        assert(groups.take(n) == groups);
    }
}

/// The choices of the "Link an item" dialog for group `gid`.
pub fn link_candidates(groups: &[GroupWithItems], gid: i64) -> (r: Vec<(i64, String)>)
    ensures
        option_views(r@) == link_candidates_spec(groups@, gid, already_linked(groups@, gid)),
{
    let already = already_linked_exec(groups, gid);
    let ghost al = already@;
    let mut r: Vec<(i64, String)> = Vec::new();
    let mut g: usize = 0;
    while g < groups.len()
        invariant
            g <= groups@.len(),
            already@ == al,
            option_views(r@) == link_candidates_spec(groups@.take(g as int), gid, al),
        decreases groups@.len() - g,
    {
        assert(groups@.take(g + 1).drop_last() == groups@.take(g as int));
        assert(groups@.take(g + 1).last() == groups@[g as int]);
        let grp = &groups[g];
        if grp.group.id != gid {
            let ghost before = option_views(r@);
            let items = &grp.items;
            let mut k: usize = 0;
            while k < items.len()
                invariant
                    k <= items@.len(),
                    already@ == al,
                    *grp == groups@[g as int],
                    option_views(r@) == before + linkable(items@.take(k as int), grp.group.name@, al),
                decreases items@.len() - k,
            {
                assert(items@.take(k + 1).drop_last() == items@.take(k as int));
                assert(items@.take(k + 1).last() == items@[k as int]);
                let it = &items[k];
                if it.source_item_id.is_none() && !contains_i64(&already, it.id) {
                    let mut l = grp.group.name.clone();
                    push_str(&mut l, " / ");
                    push_str(&mut l, it.label.as_str());
                    let ghost rv = r@;
                    r.push((it.id, l));
                    assert(option_views(r@) =~= option_views(rv).push(
                        (it.id, grp.group.name@ + " / "@ + it.label@),
                    ));
                }
                k = k + 1;
            }
            assert(items@.take(items@.len() as int) == items@);
        }
        g = g + 1;
    }
    assert(groups@.take(groups@.len() as int) == groups@);
    r
}

fn contains_i64(v: &Vec<i64>, x: i64) -> (r: bool)
    ensures
        r == v@.contains(x),
{
    let mut i: usize = 0;
    while i < v.len()
        invariant
            i <= v@.len(),
            forall|j: int| 0 <= j < i ==> v@[j] != x,
        decreases v@.len() - i,
    {
        if v[i] == x {
            assert(v@[i as int] == x);
            return true;
        }
        i = i + 1;
    }
    false
}

/// The mirror a confirmed link creates: the source's label (looked up by id,
/// empty when unknown) and the source id; nothing else is set.
pub fn mirror_input(index: &ItemIndex, source_id: i64) -> (r: CreateItemInput)
    ensures
        r.label@ == (match index_lookup(index.entries@, source_id) {
            Some(e) => e.item.label@,
            None => Seq::empty(),
        }),
        r.source_item_id == Some(source_id),
        r.ref_type is None && r.ref_number is None && r.note is None && r.stage is None,
        r.checklist is None && r.depends_on is None,
{
    let label = match index.get(source_id) {
        Some(e) => e.item.label.clone(),
        None => String::new(),
    };
    CreateItemInput {
        label,
        ref_type: None,
        ref_number: None,
        note: None,
        stage: None,
        checklist: None,
        depends_on: None,
        source_item_id: Some(source_id),
    }
}

} // verus!
