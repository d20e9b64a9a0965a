//! Dashboard grid cells from the tiles' saved layouts, and the prefill of
//! the new-tile dialog when a copied tile is pasted.
use vstd::prelude::*;
use crate::gh_query::strings_view;
use crate::json::{json_as_i64, json_as_str, json_get, Json};
use crate::text::{chars_of, decimal, parse_i64, parse_i64_chars, push_decimal, push_str, string_from};
use crate::types::{Tile, TileLayout};
use crate::war_room::str_eq;

verus! {

broadcast use vstd::string::group_string_axioms;

/// A cell of the dashboard grid: the tile id as text, its position and size
/// (each side at least 1), and a minimum size of 2 by 2.
#[derive(Clone, PartialEq, Debug)]
pub struct GridCell {
    pub id: String,
    pub x: i32,
    pub y: i32,
    pub w: i32,
    pub h: i32,
    pub min_w: i32,
    pub min_h: i32,
}

/// The grid cell of a tile with this id and saved layout.
pub fn grid_cell(id: i64, layout: TileLayout) -> (c: GridCell)
    ensures
        c.id@ == decimal(id as int),
        c.x == layout.x,
        c.y == layout.y,
        c.w == (if layout.w < 1 {
            1
        } else {
            layout.w
        }),
        c.h == (if layout.h < 1 {
            1
        } else {
            layout.h
        }),
        c.min_w == 2,
        c.min_h == 2,
{
    let mut sid = String::new();
    push_decimal(&mut sid, id);
    GridCell {
        id: sid,
        x: layout.x,
        y: layout.y,
        w: if layout.w < 1 {
            1
        } else {
            layout.w
        },
        h: if layout.h < 1 {
            1
        } else {
            layout.h
        },
        min_w: 2,
        min_h: 2,
    }
}

/// The grid of a dashboard: one cell per tile, in order, from each tile's
/// id and its layout. `layouts[i]` is `tiles[i].layout` decoded from its
/// JSON text, or the default layout where that text does not decode; the
/// decoding is the caller's, so nothing here ties the two together.
pub fn build_layout(tiles: &Vec<Tile>, layouts: &Vec<TileLayout>) -> (r: Vec<GridCell>)
    requires
        layouts@.len() == tiles@.len(),
    ensures
        r@.len() == tiles@.len(),
        forall|i: int|
            0 <= i < r@.len() ==> (#[trigger] r@[i]).id@ == decimal(tiles@[i].id as int) && r@[i].x
                == layouts@[i].x && r@[i].y == layouts@[i].y && r@[i].w == (if layouts@[i].w < 1 {
                1
            } else {
                layouts@[i].w
            }) && r@[i].h == (if layouts@[i].h < 1 {
                1
            } else {
                layouts@[i].h
            }) && r@[i].min_w == 2 && r@[i].min_h == 2,
{
    let mut r: Vec<GridCell> = Vec::new();
    let mut i: usize = 0;
    while i < tiles.len()
        invariant
            i <= tiles@.len(),
            layouts@.len() == tiles@.len(),
            r@.len() == i,
            forall|j: int|
                0 <= j < i ==> (#[trigger] r@[j]).id@ == decimal(tiles@[j].id as int) && r@[j].x
                    == layouts@[j].x && r@[j].y == layouts@[j].y && r@[j].w == (if layouts@[j].w
                    < 1 {
                    1
                } else {
                    layouts@[j].w
                }) && r@[j].h == (if layouts@[j].h < 1 {
                    1
                } else {
                    layouts@[j].h
                }) && r@[j].min_w == 2 && r@[j].min_h == 2,
        decreases tiles@.len() - i,
    {
        r.push(grid_cell(tiles[i].id, layouts[i]));
        i = i + 1;
    }
    r
}

/// Prefill values of the new-tile dialog when pasting a copied tile.
#[derive(Clone, PartialEq, Debug)]
pub struct NewTileInit {
    /// `"gh_query"` or `"note"`.
    pub tile_type: String,
    pub title: String,
    pub commands: Option<Vec<String>>,
    pub variables_json: Option<String>,
    pub note_id: Option<String>,
}

/// The string items of an array, in order.
pub open spec fn string_items(items: Seq<Json>) -> Seq<Seq<char>>
    decreases items.len(),
{
    if items.len() == 0 {
        Seq::empty()
    } else {
        let rest = string_items(items.drop_last());
        match json_as_str(items.last()) {
            Some(s) => rest.push(s),
            None => rest,
        }
    }
}

/// The commands of a copied query tile: its non-empty `commands` list of
/// strings, else its `command`, else one empty command.
pub open spec fn paste_commands(cfg: Json) -> Seq<Seq<char>> {
    let listed = match json_get(cfg, "commands"@) {
        Some(Json::Array { items, .. }) => string_items(items@),
        _ => Seq::empty(),
    };
    if listed.len() > 0 {
        listed
    } else {
        match json_get(cfg, "command"@) {
            Some(c) => match json_as_str(c) {
                Some(s) => seq![s],
                None => seq![Seq::empty()],
            },
            None => seq![Seq::empty()],
        }
    }
}

/// The variables of a copied query tile as pretty JSON, when they form a
/// non-empty object; empty otherwise.
pub open spec fn paste_variables(cfg: Json) -> Seq<char> {
    match json_get(cfg, "variables"@) {
        Some(Json::Object { entries, pretty, .. }) => if entries@.len() > 0 {
            pretty@
        } else {
            Seq::empty()
        },
        _ => Seq::empty(),
    }
}

/// The note a note tile shows: the config's integer `note_id`, or `0`.
pub open spec fn note_id_of(cfg: Json) -> i64 {
    match json_get(cfg, "note_id"@) {
        Some(v) => match json_as_i64(v) {
            Some(n) => n,
            None => 0,
        },
        None => 0,
    }
}

/// The note of a copied note tile, as text (`0` when missing).
pub open spec fn paste_note_id(cfg: Json) -> Seq<char> {
    decimal(note_id_of(cfg) as int)
}

/// What a tile's config text reads as: the JSON value it holds, or an empty
/// object where it is not JSON.
pub uninterp spec fn config_json(text: Seq<char>) -> Json;

/// `serde_json::from_str::<Value>(text)`, an empty object where that
/// fails, converted to `Json`. The result is named `config_json` of the
/// text.
#[verifier::external_body]
pub fn decode_config(text: &str) -> (r: Json)
    ensures
        r == config_json(text@),
{
    let v = serde_json::from_str::<serde_json::Value>(text).unwrap_or_else(
        |_| serde_json::Value::Object(serde_json::Map::new()),
    );
    crate::json::json_from_value(&v)
}

/// The note id in a decoded note-tile config.
pub fn note_id_from(cfg: &Json) -> (r: i64)
    ensures
        r == note_id_of(*cfg),
{
    match cfg.get("note_id") {
        Some(v) => match v.as_i64() {
            Some(n) => n,
            None => 0,
        },
        None => 0,
    }
}

/// The note a note tile shows, read from its config text.
pub fn note_tile_id(tile: &Tile) -> (r: i64)
    ensures
        r == note_id_of(config_json(tile.config@)),
{
    let cfg = decode_config(tile.config.as_str());
    note_id_from(&cfg)
}

fn string_items_exec(items: &Vec<Json>) -> (r: Vec<String>)
    ensures
        strings_view(r@) == string_items(items@),
{
    let mut r: Vec<String> = Vec::new();
    let mut i: usize = 0;
    while i < items.len()
        invariant
            i <= items@.len(),
            strings_view(r@) == string_items(items@.take(i as int)),
        decreases items@.len() - i,
    {
        assert(items@.take(i + 1).drop_last() == items@.take(i as int));
        assert(items@.take(i + 1).last() == items@[i as int]);
        if let Some(s) = items[i].as_str() {
            let ghost before = r@;
            r.push(s.clone());
            assert(strings_view(r@) =~= strings_view(before).push(s@));
        }
        i = i + 1;
    }
    assert(items@.take(items@.len() as int) == items@);
    r
}

/// `r` is the dialog prefill for pasting `tile` whose config reads as
/// `cfg`: the title with ` (copy)`, and for a query tile its commands and
/// variables, for any other tile a note tile with its note id.
pub open spec fn paste_values_spec(tile: Tile, cfg: Json, r: NewTileInit) -> bool {
    &&& r.title@ == tile.title@ + " (copy)"@
    &&& tile.tile_type@ == "gh_query"@ ==> {
        &&& r.tile_type@ == "gh_query"@
        &&& r.commands matches Some(c) && strings_view(c@) == paste_commands(cfg)
        &&& r.variables_json matches Some(v) && v@ == paste_variables(cfg)
        &&& r.note_id is None
    }
    &&& tile.tile_type@ != "gh_query"@ ==> {
        &&& r.tile_type@ == "note"@
        &&& r.commands is None
        &&& r.variables_json is None
        &&& r.note_id matches Some(n) && n@ == paste_note_id(cfg)
    }
}

/// The dialog prefill for pasting `tile`, its config read from its text.
pub fn tile_paste_values(tile: &Tile) -> (r: NewTileInit)
    ensures
        paste_values_spec(*tile, config_json(tile.config@), r),
{
    let cfg = decode_config(tile.config.as_str());
    tile_paste_values_from(tile, &cfg)
}

/// The dialog prefill for pasting `tile` whose config reads as `cfg`.
pub fn tile_paste_values_from(tile: &Tile, cfg: &Json) -> (r: NewTileInit)
    ensures
        paste_values_spec(*tile, *cfg, r),
{
    let mut title = tile.title.clone();
    push_str(&mut title, " (copy)");
    if str_eq(tile.tile_type.as_str(), "gh_query") {
        let listed = match cfg.get("commands") {
            Some(Json::Array { items, .. }) => string_items_exec(items),
            _ => Vec::new(),
        };
        let commands = if listed.len() > 0 {
            listed
        } else {
            let one = match cfg.get("command") {
                Some(c) => match c.as_str() {
                    Some(s) => s.clone(),
                    None => String::new(),
                },
                None => String::new(),
            };
            let mut v: Vec<String> = Vec::new();
            v.push(one);
            assert(strings_view(v@) =~= paste_commands(*cfg));
            v
        };
        let variables_json = match cfg.get("variables") {
            Some(Json::Object { entries, pretty, .. }) => if entries.len() > 0 {
                pretty.clone()
            } else {
                String::new()
            },
            _ => String::new(),
        };
        NewTileInit {
            tile_type: string_from("gh_query"),
            title,
            commands: Some(commands),
            variables_json: Some(variables_json),
            note_id: None,
        }
    } else {
        let n = note_id_from(cfg);
        let mut id = String::new();
        push_decimal(&mut id, n);
        NewTileInit {
            tile_type: string_from("note"),
            title,
            commands: None,
            variables_json: None,
            note_id: Some(id),
        }
    }
}

// ---------------------------------------------------------------------------
// When the grid is rebuilt
// ---------------------------------------------------------------------------

/// Where `x` goes in the ascending `s`: after every element not above it.
pub open spec fn int_insert_pos(s: Seq<i64>, x: i64) -> int
    decreases s.len(),
{
    if s.len() == 0 {
        0
    } else if x < s.last() {
        int_insert_pos(s.drop_last(), x)
    } else {
        s.len() as int
    }
}

/// `s` sorted ascending.
pub open spec fn sort_ints(s: Seq<i64>) -> Seq<i64>
    decreases s.len(),
{
    if s.len() == 0 {
        Seq::empty()
    } else {
        let t = sort_ints(s.drop_last());
        t.insert(int_insert_pos(t, s.last()), s.last())
    }
}

proof fn lemma_int_insert_pos_bounds(s: Seq<i64>, x: i64)
    ensures
        0 <= int_insert_pos(s, x) <= s.len(),
    decreases s.len(),
{
    if s.len() > 0 {
        lemma_int_insert_pos_bounds(s.drop_last(), x);
    }
}

fn sort_ints_exec(v: &Vec<i64>) -> (r: Vec<i64>)
    ensures
        r@ == sort_ints(v@),
{
    let mut out: Vec<i64> = Vec::new();
    let mut i: usize = 0;
    while i < v.len()
        invariant
            i <= v@.len(),
            out@ == sort_ints(v@.take(i as int)),
        decreases v@.len() - i,
    {
        assert(v@.take(i + 1).drop_last() == v@.take(i as int));
        assert(v@.take(i + 1).last() == v@[i as int]);
        let x = v[i];
        let ghost sv = out@;
        proof {
            lemma_int_insert_pos_bounds(sv, x);
        }
        let mut p: usize = out.len();
        assert(sv.take(p as int) == sv);
        while p > 0 && x < out[p - 1]
            invariant
                p <= out@.len(),
                out@ == sv,
                int_insert_pos(sv, x) == int_insert_pos(sv.take(p as int), x),
            decreases p,
        {
            assert(sv.take(p as int).last() == sv[p - 1]);
            assert(sv.take(p as int).drop_last() == sv.take(p - 1));
            p = p - 1;
        }
        proof {
            if p > 0 {
                assert(sv.take(p as int).last() == sv[p - 1]);
            }
        }
        out.insert(p, x);
        i = i + 1;
    }
    assert(v@.take(v@.len() as int) == v@);
    out
}

/// The ids of the grid cells read back as numbers; cells whose id is not
/// one are skipped.
pub open spec fn parsed_ids(ids: Seq<Seq<char>>) -> Seq<i64>
    decreases ids.len(),
{
    if ids.len() == 0 {
        Seq::empty()
    } else {
        let rest = parsed_ids(ids.drop_last());
        match parse_i64(ids.last()) {
            Some(n) => rest.push(n),
            None => rest,
        }
    }
}

/// The grid is rebuilt only when the set of tile ids changed (tiles added
/// or removed): the sorted ids of the tiles and of the cells differ.
pub fn layout_ids_changed(tile_ids: &Vec<i64>, cell_ids: &Vec<String>) -> (r: bool)
    ensures
        r == (sort_ints(tile_ids@) != sort_ints(parsed_ids(strings_view(cell_ids@)))),
{
    let ghost cv = strings_view(cell_ids@);
    let mut have: Vec<i64> = Vec::new();
    let mut i: usize = 0;
    while i < cell_ids.len()
        invariant
            i <= cell_ids@.len(),
            cv == strings_view(cell_ids@),
            have@ == parsed_ids(cv.take(i as int)),
        decreases cell_ids@.len() - i,
    {
        assert(cv.take(i + 1).drop_last() == cv.take(i as int));
        assert(cv.take(i + 1).last() == cell_ids@[i as int]@);
        let cs = chars_of(cell_ids[i].as_str());
        if let Some(n) = parse_i64_chars(cs.as_slice()) {
            have.push(n);
        }
        i = i + 1;
    }
    assert(cv.take(cell_ids@.len() as int) == cv);
    let a = sort_ints_exec(tile_ids);
    let b = sort_ints_exec(&have);
    if a.len() != b.len() {
        return true;
    }
    let mut k: usize = 0;
    while k < a.len()
        invariant
            k <= a@.len(),
            a@.len() == b@.len(),
            a@ == sort_ints(tile_ids@),
            b@ == sort_ints(parsed_ids(strings_view(cell_ids@))),
            forall|j: int| 0 <= j < k ==> a@[j] == b@[j],
        decreases a@.len() - k,
    {
        if a[k] != b[k] {
            assert(a@[k as int] != b@[k as int]);
            return true;
        }
        k = k + 1;
    }
    assert(a@ =~= b@);
    false
}

/// Ascending order.
pub open spec fn ascending(s: Seq<i64>) -> bool {
    forall|i: int, j: int| 0 <= i < j < s.len() ==> s[i] <= s[j]
}

proof fn lemma_int_insert_sorted(s: Seq<i64>, x: i64)
    requires
        ascending(s),
    ensures
        ascending(s.insert(int_insert_pos(s, x), x)),
    decreases s.len(),
{
    lemma_int_insert_pos_bounds(s, x);
    let p = int_insert_pos(s, x);
    let r = s.insert(p, x);
    if s.len() > 0 && x < s.last() {
        let d = s.drop_last();
        lemma_int_insert_sorted(d, x);
        lemma_int_insert_pos_bounds(d, x);
        assert(r =~= d.insert(p, x).push(s.last()));
    } else {
        assert(r =~= s.push(x));
    }
}

/// The sorted ids are ascending and are the same ids, as a multiset.
pub proof fn lemma_sort_ints(s: Seq<i64>)
    ensures
        ascending(sort_ints(s)),
        sort_ints(s).to_multiset() == s.to_multiset(),
    decreases s.len(),
{
    broadcast use vstd::seq_lib::group_to_multiset_ensures;

    if s.len() > 0 {
        let t = sort_ints(s.drop_last());
        lemma_sort_ints(s.drop_last());
        lemma_int_insert_pos_bounds(t, s.last());
        lemma_int_insert_sorted(t, s.last());
        vstd::seq_lib::to_multiset_insert(t, int_insert_pos(t, s.last()), s.last());
        vstd::seq_lib::to_multiset_build(s.drop_last(), s.last());
        assert(s.drop_last().push(s.last()) == s);
    }
}

/// The tiles whose position or size a finished drag or resize saves: each
/// cell whose id reads as a tile id, with its position and size.
pub open spec fn layout_updates_spec(cells: Seq<GridCell>) -> Seq<(i64, TileLayout)>
    decreases cells.len(),
{
    if cells.len() == 0 {
        Seq::empty()
    } else {
        let rest = layout_updates_spec(cells.drop_last());
        let c = cells.last();
        match parse_i64(c.id@) {
            Some(id) => rest.push((id, TileLayout { x: c.x, y: c.y, w: c.w, h: c.h })),
            None => rest,
        }
    }
}

/// The layout saves after the grid settles.
pub fn layout_updates(cells: &Vec<GridCell>) -> (r: Vec<(i64, TileLayout)>)
    ensures
        r@ == layout_updates_spec(cells@),
{
    let mut r: Vec<(i64, TileLayout)> = Vec::new();
    let mut i: usize = 0;
    while i < cells.len()
        invariant
            i <= cells@.len(),
            r@ == layout_updates_spec(cells@.take(i as int)),
        decreases cells@.len() - i,
    {
        assert(cells@.take(i + 1).drop_last() == cells@.take(i as int));
        assert(cells@.take(i + 1).last() == cells@[i as int]);
        let c = &cells[i];
        let cs = chars_of(c.id.as_str());
        if let Some(id) = parse_i64_chars(cs.as_slice()) {
            r.push((id, TileLayout { x: c.x, y: c.y, w: c.w, h: c.h }));
        }
        i = i + 1;
    }
    assert(cells@.take(cells@.len() as int) == cells@);
    r
}

} // verus!
