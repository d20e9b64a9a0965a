//! Backup and restore: the name of an exported file, the summary shown
//! after a restore, and the per-tile column preferences to write back under
//! the tiles' new ids.
use vstd::prelude::*;
use crate::field_extractors::join;
use crate::gh_query::strings_view;
use crate::json::{json_as_i64, json_as_str, json_get, Json};
use crate::dashboard::string_items;
use crate::text::{decimal, push_decimal_u64, push_str, string_from};

verus! {

broadcast use vstd::string::group_string_axioms;

/// The ISO timestamp without `-` and `:`.
pub open spec fn strip_dashes_colons(s: Seq<char>) -> Seq<char>
    decreases s.len(),
{
    if s.len() == 0 {
        Seq::empty()
    } else {
        let rest = strip_dashes_colons(s.drop_last());
        if s.last() == '-' || s.last() == ':' {
            rest
        } else {
            rest.push(s.last())
        }
    }
}

/// `gh_project_backup_<stamp>.json`, the stamp being the first 13
/// characters of the ISO timestamp once `-` and `:` are removed.
pub open spec fn backup_filename_spec(iso: Seq<char>) -> Seq<char> {
    let t = strip_dashes_colons(iso);
    "gh_project_backup_"@ + (if t.len() > 13 {
        t.take(13)
    } else {
        t
    }) + ".json"@
}

/// The file name of a backup exported at the ISO time `iso`.
pub fn backup_filename(iso: &str) -> (r: String)
    ensures
        r@ == backup_filename_spec(iso@),
{
    let cs = crate::text::chars_of(iso);
    let mut t: Vec<char> = Vec::new();
    let mut i: usize = 0;
    while i < cs.len()
        invariant
            i <= cs@.len(),
            t@ == strip_dashes_colons(cs@.take(i as int)),
        decreases cs@.len() - i,
    {
        assert(cs@.take(i + 1).drop_last() == cs@.take(i as int));
        assert(cs@.take(i + 1).last() == cs@[i as int]);
        if cs[i] != '-' && cs[i] != ':' {
            t.push(cs[i]);
        }
        i = i + 1;
    }
    assert(cs@.take(cs@.len() as int) == cs@);
    let n = if t.len() > 13 {
        13
    } else {
        t.len()
    };
    let mut r = string_from("gh_project_backup_");
    crate::text::push_chars(&mut r, crate::text::slice_range(t.as_slice(), 0, n).as_slice());
    push_str(&mut r, ".json");
    r
}

/// The parts of the summary shown after a restore.
pub open spec fn restore_report_parts(
    links_restored: u64,
    links_dropped: u64,
    watches_skipped: u64,
    snapshot: Option<Seq<char>>,
) -> Seq<Seq<char>> {
    let a = seq![decimal(links_restored as int) + " link(s) restored"@];
    let b = if links_dropped > 0 {
        a.push(decimal(links_dropped as int) + " link(s) dropped — target missing from the backup"@)
    } else {
        a
    };
    let c = if watches_skipped > 0 {
        b.push(decimal(watches_skipped as int) + " release watch(es) skipped — repo not found"@)
    } else {
        b
    };
    match snapshot {
        Some(p) => c.push("previous database saved to "@ + p),
        None => c,
    }
}

/// The summary shown after a restore: links restored, then links dropped
/// and release watches skipped when there are any, then where the previous
/// database was saved; joined by ` · `.
pub fn restore_report(
    links_restored: u64,
    links_dropped: u64,
    watches_skipped: u64,
    snapshot: Option<String>,
) -> (r: String)
    ensures
        r@ == join(
            restore_report_parts(
                links_restored,
                links_dropped,
                watches_skipped,
                crate::forms::opt_view(snapshot),
            ),
            " · "@,
        ),
{
    let mut r = String::new();
    push_decimal_u64(&mut r, links_restored);
    push_str(&mut r, " link(s) restored");
    let ghost a = seq![decimal(links_restored as int) + " link(s) restored"@];
    assert(r@ == join(a, " · "@));
    let ghost b = a;
    if links_dropped > 0 {
        push_str(&mut r, " · ");
        push_decimal_u64(&mut r, links_dropped);
        push_str(&mut r, " link(s) dropped — target missing from the backup");
        proof {
            b = a.push(
                decimal(links_dropped as int) + " link(s) dropped — target missing from the backup"@,
            );
            assert(b.drop_last() == a);
        }
    }
    assert(r@ == join(b, " · "@));
    let ghost c = b;
    if watches_skipped > 0 {
        push_str(&mut r, " · ");
        push_decimal_u64(&mut r, watches_skipped);
        push_str(&mut r, " release watch(es) skipped — repo not found");
        proof {
            c = b.push(decimal(watches_skipped as int) + " release watch(es) skipped — repo not found"@);
            assert(c.drop_last() == b);
        }
    }
    assert(r@ == join(c, " · "@));
    if let Some(p) = &snapshot {
        push_str(&mut r, " · ");
        push_str(&mut r, "previous database saved to ");
        push_str(&mut r, p.as_str());
        assert(c.push("previous database saved to "@ + p@).drop_last() == c);
    }
    r
}

// ---------------------------------------------------------------------------
// Column preferences of restored tiles
// ---------------------------------------------------------------------------

/// The column preferences of one restored tile, under its new id.
#[derive(Clone, Debug)]
pub struct TilePrefs {
    pub tile_id: i64,
    pub hidden_cols: Option<Vec<String>>,
    pub col_order: Option<Vec<String>>,
}

pub open spec fn opt_strings(o: Option<Vec<String>>) -> Option<Seq<Seq<char>>> {
    match o {
        Some(v) => Some(strings_view(v@)),
        None => None,
    }
}

pub open spec fn prefs_view(p: TilePrefs) -> (i64, Option<Seq<Seq<char>>>, Option<Seq<Seq<char>>>) {
    (p.tile_id, opt_strings(p.hidden_cols), opt_strings(p.col_order))
}

/// The items of an array value; nothing for anything else.
pub open spec fn array_items(v: Option<Json>) -> Seq<Json> {
    match v {
        Some(Json::Array { items, .. }) => items@,
        _ => Seq::empty(),
    }
}

/// The string items of an array value, or `None` when it is no array.
pub open spec fn string_list(v: Option<Json>) -> Option<Seq<Seq<char>>> {
    match v {
        Some(Json::Array { items, .. }) => Some(string_items(items@)),
        _ => None,
    }
}

/// A new tile id as the restore reports it (0 when it is no integer).
pub open spec fn id_of(v: Json) -> i64 {
    match json_as_i64(v) {
        Some(n) => n,
        None => 0,
    }
}

/// The preferences of one dashboard: the `i`-th new tile id goes with the
/// `i`-th tile of the backup, where there is one.
pub open spec fn dashboard_prefs(tile_ids: Seq<Json>, tiles: Seq<Json>) -> Seq<
    (i64, Option<Seq<Seq<char>>>, Option<Seq<Seq<char>>>),
>
    decreases tile_ids.len(),
{
    if tile_ids.len() == 0 {
        Seq::empty()
    } else {
        let rest = dashboard_prefs(tile_ids.drop_last(), tiles);
        let ti = tile_ids.len() - 1;
        if ti < tiles.len() {
            rest.push(
                (
                    id_of(tile_ids.last()),
                    string_list(json_get(tiles[ti], "hidden_cols"@)),
                    string_list(json_get(tiles[ti], "col_order"@)),
                ),
            )
        } else {
            rest
        }
    }
}

/// The preferences of the first `n` restored dashboards, dashboard by
/// dashboard (the `i`-th restored dashboard goes with the `i`-th backed up).
pub open spec fn prefs_upto(rd: Seq<Json>, dd: Seq<Json>, n: int) -> Seq<
    (i64, Option<Seq<Seq<char>>>, Option<Seq<Seq<char>>>),
>
    decreases n,
{
    if n <= 0 {
        Seq::empty()
    } else {
        prefs_upto(rd, dd, n - 1) + dashboard_prefs(
            array_items(json_get(rd[n - 1], "tile_ids"@)),
            if n - 1 < dd.len() {
                array_items(json_get(dd[n - 1], "tiles"@))
            } else {
                Seq::empty()
            },
        )
    }
}

/// All preferences to write back after a restore: nothing unless both the
/// restore's answer and the backup hold a `dashboards` array.
pub open spec fn restore_prefs_spec(result: Json, data: Json) -> Seq<
    (i64, Option<Seq<Seq<char>>>, Option<Seq<Seq<char>>>),
> {
    match (json_get(result, "dashboards"@), json_get(data, "dashboards"@)) {
        (Some(Json::Array { items: rd, .. }), Some(Json::Array { items: dd, .. })) => prefs_upto(
            rd@,
            dd@,
            rd@.len() as int,
        ),
        _ => Seq::empty(),
    }
}

fn strings_of(v: Option<&Json>) -> (r: Option<Vec<String>>)
    ensures
        opt_strings(r) == string_list(
            match v {
                Some(x) => Some(*x),
                None => None,
            },
        ),
{
    match v {
        Some(Json::Array { items, .. }) => {
            let mut out: Vec<String> = Vec::new();
            let mut i: usize = 0;
            while i < items.len()
                invariant
                    i <= items@.len(),
                    strings_view(out@) == string_items(items@.take(i as int)),
                decreases items@.len() - i,
            {
                assert(items@.take(i + 1).drop_last() == items@.take(i as int));
                assert(items@.take(i + 1).last() == items@[i as int]);
                if let Some(s) = items[i].as_str() {
                    let ghost before = out@;
                    out.push(s.clone());
                    assert(strings_view(out@) =~= strings_view(before).push(s@));
                }
                i = i + 1;
            }
            assert(items@.take(items@.len() as int) == items@);
            Some(out)
        },
        _ => None,
    }
}

fn dashboard_prefs_exec(out: &mut Vec<TilePrefs>, tile_ids: &Vec<Json>, tiles: &Vec<Json>)
    ensures
        final(out)@.map_values(|p: TilePrefs| prefs_view(p)) == old(out)@.map_values(
            |p: TilePrefs| prefs_view(p),
        ) + dashboard_prefs(tile_ids@, tiles@),
{
    let ghost start = old(out)@.map_values(|p: TilePrefs| prefs_view(p));
    let mut ti: usize = 0;
    while ti < tile_ids.len()
        invariant
            ti <= tile_ids@.len(),
            out@.map_values(|p: TilePrefs| prefs_view(p)) == start + dashboard_prefs(
                tile_ids@.take(ti as int),
                tiles@,
            ),
        decreases tile_ids@.len() - ti,
    {
        assert(tile_ids@.take(ti + 1).drop_last() == tile_ids@.take(ti as int));
        assert(tile_ids@.take(ti + 1).last() == tile_ids@[ti as int]);
        if ti < tiles.len() {
            let new_id: i64 = match tile_ids[ti].as_i64() {
                Some(n) => n,
                None => 0,
            };
            let tile = &tiles[ti];
            let p = TilePrefs {
                tile_id: new_id,
                hidden_cols: strings_of(tile.get("hidden_cols")),
                col_order: strings_of(tile.get("col_order")),
            };
            let ghost before = out@.map_values(|p: TilePrefs| prefs_view(p));
            out.push(p);
            assert(out@.map_values(|p: TilePrefs| prefs_view(p)) =~= before.push(prefs_view(p)));
        }
        ti = ti + 1;
    }
    assert(tile_ids@.take(tile_ids@.len() as int) == tile_ids@);
}

/// The column preferences to write back after a restore: `result` is the
/// restore's answer (new tile ids per dashboard), `data` the backup.
pub fn restore_prefs(result: &Json, data: &Json) -> (r: Vec<TilePrefs>)
    ensures
        r@.map_values(|p: TilePrefs| prefs_view(p)) == restore_prefs_spec(*result, *data),
{
    let mut out: Vec<TilePrefs> = Vec::new();
    let rd = match result.get("dashboards") {
        Some(Json::Array { items, .. }) => items,
        _ => {
            assert(out@.map_values(|p: TilePrefs| prefs_view(p)) =~= restore_prefs_spec(
                *result,
                *data,
            ));
            return out;
        },
    };
    let dd = match data.get("dashboards") {
        Some(Json::Array { items, .. }) => items,
        _ => {
            assert(out@.map_values(|p: TilePrefs| prefs_view(p)) =~= restore_prefs_spec(
                *result,
                *data,
            ));
            return out;
        },
    };
    let empty: Vec<Json> = Vec::new();
    let mut di: usize = 0;
    assert(out@.map_values(|p: TilePrefs| prefs_view(p)) =~= prefs_upto(rd@, dd@, 0));
    while di < rd.len()
        invariant
            di <= rd@.len(),
            empty@ == Seq::<Json>::empty(),
            out@.map_values(|p: TilePrefs| prefs_view(p)) == prefs_upto(rd@, dd@, di as int),
        decreases rd@.len() - di,
    {
        let tile_ids: &Vec<Json> = match rd[di].get("tile_ids") {
            Some(Json::Array { items, .. }) => items,
            _ => &empty,
        };
        let tiles: &Vec<Json> = if di < dd.len() {
            match dd[di].get("tiles") {
                Some(Json::Array { items, .. }) => items,
                _ => &empty,
            }
        } else {
            &empty
        };
        dashboard_prefs_exec(&mut out, tile_ids, tiles);
        di = di + 1;
    }
    out
}

} // verus!
