//! Global settings: field extractors and Slack emojis merged from defaults
//! and user overrides, and the author-group classification of GH Query rows.
use vstd::prelude::*;
use crate::field_extractors::{default_extractor, default_field_extractors};
use crate::text::{chars_of, ends_with, lowercase, string_from, to_lowercase};
use crate::text_map::TextMap;
use crate::war_room::{default_stage_emoji, default_stage_emojis};

verus! {

broadcast use vstd::string::group_string_axioms;

/// The built-in extractors as a map.
pub open spec fn default_extractor_map() -> Map<Seq<char>, Seq<char>> {
    Map::new(|k: Seq<char>| default_extractor(k) is Some, |k: Seq<char>| default_extractor(k)->0)
}

pub open spec fn views_of(m: Map<Seq<char>, String>) -> Map<Seq<char>, Seq<char>> {
    m.map_values(|v: String| v@)
}

/// Defaults merged with user overrides (defaults first, user wins).
pub fn global_extractors(user: TextMap<String>) -> (m: TextMap<String>)
    ensures
        views_of(m.view()) == default_extractor_map().union_prefer_right(views_of(user.view())),
{
    let mut m = default_field_extractors();
    let ghost d = m.view();
    let ghost u = user.view();
    m.extend(user);
    assert(views_of(d) =~= default_extractor_map());
    assert(views_of(m.view()) =~= views_of(d).union_prefer_right(views_of(u)));
    m
}

/// A tile's own overrides merged on top of the global extractors.
pub fn tile_extractors(global: TextMap<String>, tile: Option<TextMap<String>>) -> (m: TextMap<String>)
    ensures
        views_of(m.view()) == match tile {
            Some(t) => views_of(global.view()).union_prefer_right(views_of(t.view())),
            None => views_of(global.view()),
        },
{
    let mut m = global;
    match tile {
        Some(t) => {
            let ghost g = m.view();
            let ghost tv = t.view();
            m.extend(t);
            assert(views_of(m.view()) =~= views_of(g).union_prefer_right(views_of(tv)));
        },
        None => {},
    }
    m
}

/// The extractor a column ends up with: the tile's own, else the global
/// setting, else the built-in default.
pub open spec fn effective_extractor(
    global: Map<Seq<char>, Seq<char>>,
    tile: Map<Seq<char>, Seq<char>>,
    column: Seq<char>,
) -> Option<Seq<char>> {
    if tile.contains_key(column) {
        Some(tile[column])
    } else if global.contains_key(column) {
        Some(global[column])
    } else {
        default_extractor(column)
    }
}

/// Merge order `built-in defaults → global settings → per-tile override`:
/// each layer only declares what it changes, and the later layer wins.
pub proof fn lemma_extractor_merge_order(
    global: Map<Seq<char>, Seq<char>>,
    tile: Map<Seq<char>, Seq<char>>,
    column: Seq<char>,
)
    ensures
        ({
            let merged = default_extractor_map().union_prefer_right(global).union_prefer_right(tile);
            &&& merged.contains_key(column) <==> effective_extractor(global, tile, column) is Some
            &&& merged.contains_key(column) ==> Some(merged[column]) == effective_extractor(
                global,
                tile,
                column,
            )
        }),
{
}

/// Default Slack emoji per stage as a map.
pub open spec fn default_emoji_map() -> Map<Seq<char>, Seq<char>> {
    Map::new(|k: Seq<char>| default_stage_emoji(k) is Some, |k: Seq<char>| default_stage_emoji(k)->0)
}

/// Stage emojis: defaults merged with user overrides (user wins).
pub fn stage_emojis(user: TextMap<String>) -> (m: TextMap<String>)
    ensures
        views_of(m.view()) == default_emoji_map().union_prefer_right(views_of(user.view())),
{
    let mut m = default_stage_emojis();
    let ghost d = m.view();
    let ghost u = user.view();
    m.extend(user);
    assert(views_of(d) =~= default_emoji_map());
    assert(views_of(m.view()) =~= views_of(d).union_prefer_right(views_of(u)));
    m
}

// ---------------------------------------------------------------------------
// Author groups
// ---------------------------------------------------------------------------

/// Which bucket an author falls into. Bots win over everything; otherwise the
/// roster group of the lowercased login, defaulting to "community".
pub open spec fn author_group_spec(roster: Map<Seq<char>, String>, login: Seq<char>, is_bot: bool) -> Seq<
    char,
> {
    let key = lowercase(login);
    let group: Option<Seq<char>> = if roster.contains_key(key) {
        Some(roster[key]@)
    } else {
        None
    };
    if is_bot || ends_with(key, "[bot]"@) || group == Some("bot"@) {
        "bot"@
    } else if group == Some("team"@) {
        "team"@
    } else if group == Some("pe"@) {
        "pe"@
    } else if group == Some("solo"@) {
        "solo"@
    } else if group == Some("maintainer"@) {
        "maintainer"@
    } else {
        "community"@
    }
}

fn group_is(group: &Option<Vec<char>>, name: &str) -> (b: bool)
    ensures
        b == (*group matches Some(g) && g@ == name@),
{
    match group {
        Some(g) => seq_eq(g.as_slice(), name),
        None => false,
    }
}

fn seq_eq(a: &[char], b: &str) -> (r: bool)
    ensures
        r == (a@ == b@),
{
    let bc = chars_of(b);
    crate::text_map::compare_chars(a, bc.as_slice()) == 0
}

/// Which bucket an item's author falls into, for the `authorGroup` column
/// in GH Query tiles. Bots win over everything so a bot that happens to be
/// an org member still reads as a bot; otherwise it is the roster group,
/// defaulting to "community" for logins we don't know. The roster maps
/// lowercased logins to their group.
pub fn author_group(roster: &TextMap<String>, login: &str, is_bot: bool) -> (r: &'static str)
    ensures
        r@ == author_group_spec(roster.view(), login@, is_bot),
{
    let key = to_lowercase(login);
    let kc = chars_of(key.as_str());
    let n = kc.len();
    let bot_suffix = n >= 5 && kc[n - 5] == '[' && kc[n - 4] == 'b' && kc[n - 3] == 'o' && kc[n
        - 2] == 't' && kc[n - 1] == ']';
    proof {
        reveal_strlit("[bot]");
        if n >= 5 {
            let sub = kc@.subrange(n - 5, n as int);
            if bot_suffix {
                assert(sub =~= "[bot]"@);
            } else {
                assert(sub != "[bot]"@) by {
                    if sub == "[bot]"@ {
                        assert(sub[0] == kc@[n - 5]);
                        assert(sub[1] == kc@[n - 4]);
                        assert(sub[2] == kc@[n - 3]);
                        assert(sub[3] == kc@[n - 2]);
                        assert(sub[4] == kc@[n - 1]);
                    }
                }
            }
        }
    }
    let group: Option<Vec<char>> = match roster.get(&key) {
        Some(g) => Some(chars_of(g.as_str())),
        None => None,
    };
    if is_bot || bot_suffix || group_is(&group, "bot") {
        "bot"
    } else if group_is(&group, "team") {
        "team"
    } else if group_is(&group, "pe") {
        "pe"
    } else if group_is(&group, "solo") {
        "solo"
    } else if group_is(&group, "maintainer") {
        "maintainer"
    } else {
        "community"
    }
}

/// The groups a roster can give a login.
pub open spec fn is_roster_group(g: Seq<char>) -> bool {
    g == "team"@ || g == "pe"@ || g == "solo"@ || g == "maintainer"@ || g == "bot"@
}

/// How an author is classified: a bot (flagged, or a login ending in
/// `[bot]`) is `bot`; any other login that the roster maps, lowercased, to a
/// known group is in that group; every other login is `community`.
pub proof fn lemma_author_group_follows_roster(
    roster: Map<Seq<char>, String>,
    login: Seq<char>,
    is_bot: bool,
)
    ensures
        ({
            let key = lowercase(login);
            let g = author_group_spec(roster, login, is_bot);
            &&& (is_bot || ends_with(key, "[bot]"@)) ==> g == "bot"@
            &&& (!is_bot && !ends_with(key, "[bot]"@) && roster.contains_key(key) && is_roster_group(
                roster[key]@,
            )) ==> g == roster[key]@
            &&& (!is_bot && !ends_with(key, "[bot]"@) && !(roster.contains_key(key)
                && is_roster_group(roster[key]@))) ==> g == "community"@
            &&& is_roster_group(g) || g == "community"@
        }),
{
    reveal_strlit("team");
    reveal_strlit("pe");
    reveal_strlit("solo");
    reveal_strlit("maintainer");
    reveal_strlit("bot");
    reveal_strlit("community");
}

} // verus!
