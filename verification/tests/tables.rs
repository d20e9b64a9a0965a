use gh_projects_web::field_extractors::{
    date_text_or, default_field_extractors, extract_display, value_to_plain,
};
use gh_projects_web::gh_query::{
    all_keys, expand_commands, hidden_columns, hidden_key, keys_with_any_prefix, note_key, parse_repo_from_command,
    repository_patch, row_key, row_number, row_ref_type, row_repo, toggle, visible_keys,
};
use gh_projects_web::json::{Json, JsonNumber};
use gh_projects_web::table::{
    active_filter_count, cell_text, column_values, display_keys, filter_rows, filter_search,
    priority_order, reorder_order, row_matches, send_to_bottom, send_to_top, toggle_filter_value,
    SortMode, SortState,
};
use gh_projects_web::text_map::TextMap;
use gh_projects_web::types::{GhQueryConfig, VarValue};

fn conv(v: &serde_json::Value) -> Json {
    match v {
        serde_json::Value::Null => Json::Null,
        serde_json::Value::Bool(b) => Json::Bool(*b),
        serde_json::Value::Number(n) => {
            Json::Number(JsonNumber { text: n.to_string(), int_value: n.as_i64() })
        }
        serde_json::Value::String(s) => Json::Str(s.clone()),
        serde_json::Value::Array(a) => Json::Array {
            items: a.iter().map(conv).collect(),
            compact: serde_json::to_string(v).unwrap(),
            pretty: serde_json::to_string_pretty(v).unwrap(),
        },
        serde_json::Value::Object(o) => Json::Object {
            entries: o.iter().map(|(k, x)| (k.clone(), conv(x))).collect(),
            compact: serde_json::to_string(v).unwrap(),
            pretty: serde_json::to_string_pretty(v).unwrap(),
        },
    }
}

fn j(text: &str) -> Json {
    conv(&serde_json::from_str::<serde_json::Value>(text).unwrap())
}

fn strs(v: &[&str]) -> Vec<String> {
    v.iter().map(|s| s.to_string()).collect()
}

fn sample_rows() -> Vec<Json> {
    vec![
        j(r#"{"number": 1, "repository": "o/a", "state": "OPEN", "author": {"login": "al", "name": "Al"}}"#),
        j(r#"{"number": 2, "repository": "o/a", "state": "CLOSED", "author": {"login": "bo"}}"#),
        j(r#"{"number": 3, "repository": {"nameWithOwner": "o/b"}, "state": "OPEN", "author": {"login": "cy"}}"#),
        j(r#"{"title": "no key"}"#),
    ]
}

#[test]
fn row_keys_repos_and_numbers() {
    let rows = sample_rows();
    assert_eq!(row_key(&rows[0]), Some("a#1".to_string()));
    assert_eq!(row_key(&rows[2]), Some("b#3".to_string()));
    assert_eq!(row_key(&rows[3]), None);
    assert_eq!(row_repo(&rows[2]), Some("o/b".to_string()));
    assert_eq!(row_repo(&j(r#"{"repository": {"name": "n"}}"#)), Some("n".to_string()));
    assert_eq!(row_repo(&j(r#"{"repository": null}"#)), None);
    assert_eq!(row_number(&j(r#"{"number": "42"}"#)), Some(42));
    assert_eq!(row_number(&j(r#"{"number": 7}"#)), Some(7));
    assert_eq!(row_number(&j(r#"{"number": "x"}"#)), None);
}

#[test]
fn ref_type_from_row_or_command() {
    assert_eq!(row_ref_type(&j(r#"{"isPullRequest": true}"#), &[]), "pr");
    assert_eq!(row_ref_type(&j(r#"{"isPullRequest": false}"#), &strs(&["pr list"])), "issue");
    assert_eq!(row_ref_type(&j("{}"), &strs(&["pr list --repo o/r"])), "pr");
    assert_eq!(row_ref_type(&j("{}"), &strs(&["PR list"])), "pr");
    assert_eq!(row_ref_type(&j("{}"), &strs(&["search prs --owner x"])), "pr");
    assert_eq!(row_ref_type(&j("{}"), &strs(&["issue list"])), "issue");
    assert_eq!(row_ref_type(&j("{}"), &[]), "issue");
}

#[test]
fn repo_flag_in_commands() {
    assert_eq!(
        parse_repo_from_command("issue list --repo owner/r --json x"),
        Some("owner/r".to_string())
    );
    assert_eq!(parse_repo_from_command("pr list -R o/r"), Some("o/r".to_string()));
    assert_eq!(parse_repo_from_command("pr list --repo=o/r"), Some("o/r".to_string()));
    assert_eq!(parse_repo_from_command("pr list --repo"), None);
    assert_eq!(parse_repo_from_command("pr list"), None);
}

#[test]
fn expand_commands_runs_once_per_list_value() {
    let mut vars = TextMap::new();
    vars.insert("repo".to_string(), VarValue::Many(strs(&["a/x", "b/y"])));
    vars.insert("l".to_string(), VarValue::One("bug".to_string()));
    let cfg = GhQueryConfig {
        command: "issue list --repo {{repo}} --label {{l}}".to_string(),
        commands: None,
        columns: None,
        field_extractors: None,
        variables: Some(vars),
    };
    assert_eq!(
        expand_commands(&cfg),
        strs(&["issue list --repo a/x --label bug", "issue list --repo b/y --label bug"])
    );
    let cfg2 = GhQueryConfig {
        command: "unused".to_string(),
        commands: Some(strs(&["one", "two {{l}}"])),
        columns: None,
        field_extractors: None,
        variables: None,
    };
    assert_eq!(expand_commands(&cfg2), strs(&["one", "two {{l}}"]));
}

#[test]
fn expand_commands_count_is_product() {
    let mut vars = TextMap::new();
    vars.insert("r".to_string(), VarValue::Many(strs(&["1", "2", "3"])));
    let cfg = GhQueryConfig {
        command: String::new(),
        commands: Some(strs(&["a {{r}}", "b {{r}}"])),
        columns: None,
        field_extractors: None,
        variables: Some(vars),
    };
    assert_eq!(expand_commands(&cfg).len(), 6);
}

#[test]
fn storage_keys() {
    assert_eq!(hidden_key(5), "gh-tile-hidden-5");
    assert_eq!(note_key("o/r", "pr", 3), "o/r|pr|3");
    let keys = strs(&["gh-tile-hidden-1", "other", "gh-tile-x", "gh-tile-hidden-22"]);
    assert_eq!(
        keys_with_any_prefix(&keys, &strs(&["gh-tile-hidden-"])),
        strs(&["gh-tile-hidden-1", "gh-tile-hidden-22"])
    );
    assert_eq!(keys_with_any_prefix(&keys, &strs(&["oth", "gh-tile-x"])), strs(&["other", "gh-tile-x"]));
}

#[test]
fn columns_are_discovered_in_first_seen_order() {
    let rows = vec![j(r#"{"b": 1, "a": 2}"#), j(r#"{"c": 3, "a": 1}"#), j("[1]")];
    assert_eq!(all_keys(&None, &rows), strs(&["a", "b", "c"]));
    assert_eq!(all_keys(&Some(strs(&["x"])), &rows), strs(&["x"]));
    assert_eq!(visible_keys(&strs(&["a", "b", "c"]), &strs(&["b", "zz"])), strs(&["a", "c"]));
}

#[test]
fn toggling_a_column_twice_restores_it() {
    let mut hidden = strs(&["url"]);
    toggle(&mut hidden, "title".to_string());
    assert_eq!(hidden, strs(&["url", "title"]));
    toggle(&mut hidden, "title".to_string());
    assert_eq!(hidden, strs(&["url"]));
    let mut dup = strs(&["a", "b", "a"]);
    toggle(&mut dup, "a".to_string());
    assert_eq!(dup, strs(&["b", "a"]));
}

#[test]
fn priority_order_places_saved_rows_first() {
    let rows = sample_rows();
    assert_eq!(priority_order(&rows, &strs(&["b#3", "zzz", "a#1"])), vec![2, 0, 1, 3]);
    assert_eq!(priority_order(&rows, &vec![]), vec![0, 1, 2, 3]);
}

#[test]
fn priority_order_uses_the_last_row_of_a_key() {
    let rows = vec![
        j(r#"{"number": 1, "repository": "o/a", "title": "first"}"#),
        j(r#"{"number": 1, "repository": "o/a", "title": "second"}"#),
    ];
    assert_eq!(priority_order(&rows, &strs(&["a#1"])), vec![1]);
}

#[test]
fn send_to_top_and_bottom() {
    let order = strs(&["a", "b", "c", "b"]);
    let top = send_to_top(&order, &"b".to_string());
    assert_eq!(top, strs(&["b", "a", "c"]));
    assert_eq!(send_to_top(&top, &"b".to_string()), top);
    let bottom = send_to_bottom(&order, &"b".to_string());
    assert_eq!(bottom, strs(&["a", "c", "b"]));
    assert_eq!(send_to_bottom(&bottom, &"b".to_string()), bottom);
    assert_eq!(send_to_top(&vec![], &"n".to_string()), strs(&["n"]));
}

#[test]
fn sent_to_top_row_is_shown_first() {
    let rows = sample_rows();
    let order = send_to_top(&strs(&["a#1", "a#2"]), &"b#3".to_string());
    assert_eq!(priority_order(&rows, &order)[0], 2);
}

#[test]
fn drag_and_drop_reorders_shown_keys() {
    let shown = strs(&["k0", "k1", "k2", "k3"]);
    let saved = strs(&["k9", "k1", "k0"]);
    assert_eq!(
        reorder_order(&"k1".to_string(), 2, &shown, &saved),
        Some(strs(&["k0", "k2", "k1", "k3", "k9"]))
    );
    assert_eq!(
        reorder_order(&"k0".to_string(), 10, &shown, &saved),
        Some(strs(&["k1", "k2", "k3", "k0", "k9"]))
    );
    assert_eq!(reorder_order(&"nope".to_string(), 0, &shown, &saved), None);
}

fn filters_of(pairs: &[(&str, &[&str])]) -> TextMap<Vec<String>> {
    let mut f = TextMap::new();
    for (k, v) in pairs {
        f.insert(k.to_string(), strs(v));
    }
    f
}

#[test]
fn column_filters_select_rows() {
    let rows = sample_rows();
    let ex = default_field_extractors();
    let all: Vec<usize> = vec![0, 1, 2, 3];
    assert_eq!(filter_rows(&rows, &all, &filters_of(&[("state", &["OPEN"])]), &ex, &TextMap::new()), vec![0, 2]);
    assert_eq!(filter_rows(&rows, &all, &filters_of(&[("author", &["bo"])]), &ex, &TextMap::new()), vec![1]);
    assert_eq!(
        filter_rows(&rows, &all, &filters_of(&[("state", &["OPEN"]), ("author", &["cy"])]), &ex, &TextMap::new()),
        vec![2]
    );
    assert_eq!(filter_rows(&rows, &all, &filters_of(&[("state", &[])]), &ex, &TextMap::new()), all);
    assert!(row_matches(&rows[3], &filters_of(&[("state", &[""])]), &ex, &TextMap::new()));
    assert_eq!(cell_text(&rows[0], &"author".to_string(), &ex, &TextMap::new()), "al");
    assert_eq!(cell_text(&rows[3], &"state".to_string(), &ex, &TextMap::new()), "");
}

#[test]
fn inactive_filters_keep_every_row() {
    let rows = sample_rows();
    let ex = default_field_extractors();
    let f = filters_of(&[("state", &[]), ("author", &[])]);
    assert_eq!(active_filter_count(&f), 0);
    assert_eq!(filter_rows(&rows, &vec![3, 1], &f, &ex, &TextMap::new()), vec![3, 1]);
    assert_eq!(active_filter_count(&filters_of(&[("state", &["OPEN"]), ("author", &[])])), 1);
}

#[test]
fn ticking_a_filter_value_twice_clears_it() {
    let mut f: TextMap<Vec<String>> = TextMap::new();
    toggle_filter_value(&mut f, "state".to_string(), "OPEN".to_string());
    assert_eq!(f.get(&"state".to_string()), Some(&strs(&["OPEN"])));
    toggle_filter_value(&mut f, "state".to_string(), "CLOSED".to_string());
    assert_eq!(f.get(&"state".to_string()), Some(&strs(&["OPEN", "CLOSED"])));
    toggle_filter_value(&mut f, "state".to_string(), "OPEN".to_string());
    assert_eq!(f.get(&"state".to_string()), Some(&strs(&["CLOSED"])));
    toggle_filter_value(&mut f, "state".to_string(), "CLOSED".to_string());
    assert_eq!(f.get(&"state".to_string()), Some(&Vec::new()));
}

#[test]
fn filter_dropdown_values_and_search() {
    let rows = sample_rows();
    let ex = default_field_extractors();
    let order: Vec<usize> = vec![0, 1, 2, 3];
    assert_eq!(
        column_values(&rows, &order, &"state".to_string(), &ex, &TextMap::new()),
        strs(&["OPEN", "CLOSED", ""])
    );
    let values = strs(&["Alpha", "beta", "GAMMA", "Éclair"]);
    assert_eq!(filter_search(&values, "ET"), strs(&["beta"]));
    assert_eq!(filter_search(&values, ""), values);
    assert_eq!(filter_search(&values, "é"), strs(&["Éclair"]));
    assert_eq!(filter_search(&values, "MM"), strs(&["GAMMA"]));
}

#[test]
fn display_keys_skip_rows_without_key() {
    let rows = sample_rows();
    assert_eq!(display_keys(&rows, &vec![3, 2, 0]), strs(&["b#3", "a#1"]));
}

#[test]
fn sort_controls() {
    let mut s = SortState::new();
    assert_eq!(s.mode, SortMode::Column);
    s.click_column("title".to_string());
    assert_eq!((s.key.clone(), s.ascending), (Some("title".to_string()), true));
    s.click_column("title".to_string());
    assert_eq!((s.key.clone(), s.ascending), (Some("title".to_string()), false));
    s.click_column("title".to_string());
    assert!(s.ascending);
    s.click_column("state".to_string());
    assert_eq!((s.key.clone(), s.ascending), (Some("state".to_string()), true));
    s.priority_chip();
    assert_eq!(s.mode, SortMode::Priority);
    s.priority_chip();
    assert_eq!((s.mode, s.key.clone()), (SortMode::Column, None));
    s.enter_priority();
    assert_eq!(s.mode, SortMode::Priority);
}

#[test]
fn repository_is_filled_in_from_the_command() {
    let rc = Some("owner/name".to_string());
    assert_eq!(
        repository_patch(&j(r#"{"number": 1}"#), &rc),
        Some(("owner/name".to_string(), "name".to_string()))
    );
    assert_eq!(
        repository_patch(&j(r#"{"repository": null}"#), &rc),
        Some(("owner/name".to_string(), "name".to_string()))
    );
    assert_eq!(repository_patch(&j(r#"{"repository": "x/y"}"#), &rc), None);
    assert_eq!(repository_patch(&j("[1]"), &rc), None);
    assert_eq!(repository_patch(&j("{}"), &None), None);
    assert_eq!(
        repository_patch(&j("{}"), &Some("solo".to_string())),
        Some(("solo".to_string(), "solo".to_string()))
    );
}

#[test]
fn extract_display_cases() {
    let ex = "name|login";
    let v = j(r#"[{"name": "", "login": "a"}, {"name": "B", "login": "b"}]"#);
    assert_eq!(extract_display(&v, Some(ex)), "a, B");
    assert_eq!(extract_display(&j("[]"), None), "");
    assert_eq!(extract_display(&j("null"), None), "");
    assert_eq!(extract_display(&j(r#"{"login": "z"}"#), Some("login")), "z");
    assert_eq!(extract_display(&j(r#"{"x": 1}"#), Some("login")), r#"{"x":1}"#);
    assert_eq!(extract_display(&j(r#"{"x": 1}"#), None), r#"{"x":1}"#);
    assert_eq!(extract_display(&j("[1, \"a\", true]"), None), "1, a, true");
    assert_eq!(value_to_plain(&j("12")), "12");
    assert_eq!(value_to_plain(&j("true")), "true");
    assert_eq!(value_to_plain(&j("\"s\"")), "s");
}

use gh_projects_web::backup::restore_prefs;
use gh_projects_web::dashboard::{decode_config, note_tile_id, tile_paste_values, tile_paste_values_from};
use gh_projects_web::display::{detail_body, detail_header, person};
use gh_projects_web::forms::edit_commands;
use gh_projects_web::releases::release_tags;
use gh_projects_web::types::Tile;

#[test]
fn release_tags_from_gh_output() {
    let out = j(r#"[{"tagName": "v1.2.0"}, {"tagName": "v1.10.0"}, {"tagName": "v1.10.0-rc1"}, {"name": "x"}]"#);
    assert_eq!(release_tags(&out), strs(&["v1.10.0", "v1.10.0-rc1", "v1.2.0"]));
    assert_eq!(release_tags(&j(r#"{"tagName": "v1"}"#)), Vec::<String>::new());
}

#[test]
fn edit_form_commands_from_config() {
    assert_eq!(edit_commands(&j(r#"{"commands": ["a", 1]}"#)), strs(&["a", ""]));
    assert_eq!(edit_commands(&j(r#"{"commands": [], "command": "x"}"#)), strs(&["x"]));
    assert_eq!(edit_commands(&j("{}")), strs(&[""]));
}

fn tile_of(kind: &str) -> Tile {
    Tile {
        id: 9,
        dashboard_id: 1,
        title: "T".to_string(),
        tile_type: kind.to_string(),
        config: String::new(),
        layout: String::new(),
        created_at: String::new(),
        updated_at: String::new(),
    }
}

#[test]
fn pasting_a_copied_tile() {
    let cfg = j(r#"{"commands": [], "command": "issue list", "variables": {"a": "b"}}"#);
    let p = tile_paste_values_from(&tile_of("gh_query"), &cfg);
    assert_eq!(p.title, "T (copy)");
    assert_eq!(p.tile_type, "gh_query");
    assert_eq!(p.commands, Some(strs(&["issue list"])));
    assert_eq!(p.variables_json, Some("{\n  \"a\": \"b\"\n}".to_string()));
    assert_eq!(p.note_id, None);
    let q = tile_paste_values_from(&tile_of("gh_query"), &j(r#"{"commands": ["x", 2, "y"], "variables": {}}"#));
    assert_eq!(q.commands, Some(strs(&["x", "y"])));
    assert_eq!(q.variables_json, Some(String::new()));
    let r = tile_paste_values_from(&tile_of("gh_query"), &j("{}"));
    assert_eq!(r.commands, Some(strs(&[""])));
    let n = tile_paste_values_from(&tile_of("note"), &j(r#"{"note_id": 12}"#));
    assert_eq!((n.tile_type.as_str(), n.note_id.clone()), ("note", Some("12".to_string())));
    assert_eq!(tile_paste_values_from(&tile_of("note"), &j("{}")).note_id, Some("0".to_string()));
}

#[test]
fn restored_tiles_get_their_preferences_back() {
    let result = j(r#"{"dashboards": [{"tile_ids": [101, 102]}, {"tile_ids": [201]}]}"#);
    let data = j(r#"{"dashboards": [
        {"tiles": [{"hidden_cols": ["url", 3]}, {"col_order": ["b", "a"]}]},
        {"tiles": []}
    ]}"#);
    let prefs = restore_prefs(&result, &data);
    assert_eq!(prefs.len(), 2);
    assert_eq!((prefs[0].tile_id, prefs[0].hidden_cols.clone(), prefs[0].col_order.clone()), (101, Some(strs(&["url"])), None));
    assert_eq!((prefs[1].tile_id, prefs[1].hidden_cols.clone(), prefs[1].col_order.clone()), (102, None, Some(strs(&["b", "a"]))));
    assert!(restore_prefs(&j("{}"), &data).is_empty());
}

#[test]
fn detail_panel_model() {
    let item = j(r#"{
        "number": 12, "title": "Fix", "state": "OPEN", "isDraft": true,
        "author": {"login": "al", "name": ""},
        "assignees": [{"login": "bo", "name": "Bo"}],
        "labels": [{"name": "bug"}, {"name": "p1"}],
        "milestone": {"title": "M1"},
        "headRefName": "fix", "baseRefName": "main",
        "body": "text", "createdAt": "2026-01-01",
        "comments": [{"author": {"login": "cy"}, "body": "one", "createdAt": "d1"},
                     {"author": {"login": "dee"}, "body": "two", "createdAt": "d2"}]
    }"#);
    let h = detail_header(&item, true);
    assert_eq!((h.number, h.title.as_str(), h.state.as_str()), (12, "Fix", "draft"));
    assert_eq!(h.badge_class, "badge badge-draft");
    assert_eq!((h.author.login.as_str(), h.author.name.as_str()), ("al", "al"));
    assert_eq!(h.assignees.len(), 1);
    assert_eq!(h.assignees[0].name, "Bo");
    assert_eq!(h.labels, strs(&["bug", "p1"]));
    assert_eq!(h.milestone, Some("M1".to_string()));
    assert_eq!((h.head_ref.as_str(), h.base_ref.as_str()), ("fix", "main"));
    let issue = detail_header(&item, false);
    assert_eq!((issue.state.as_str(), issue.badge_class.as_str()), ("open", "badge badge-open"));
    let b = detail_body(&item);
    assert_eq!((b.author_login.as_str(), b.body.as_str(), b.created_at.as_str()), ("al", "text", "2026-01-01"));
    assert_eq!(b.comment_count, 2);
    let last = b.last_comment.unwrap();
    assert_eq!((last.author.as_str(), last.body.as_str()), ("dee", "two"));
    let empty = detail_body(&j("{}"));
    assert_eq!((empty.comment_count, empty.last_comment.is_none()), (0, true));
    let p = person(&j(r#"{"login": "zed", "name": "Zed"}"#));
    assert_eq!((p.login.as_str(), p.name.as_str()), ("zed", "Zed"));
    let closed = detail_header(&j(r#"{"state": "CLOSED"}"#), true);
    assert_eq!(closed.badge_class, "badge badge-closed-pr");
}

use gh_projects_web::table::{cell_datetime, cell_tooltip, filter_is_active};

#[test]
fn cell_hover_text_and_highlight() {
    let ex = default_field_extractors();
    let row = j(r#"{"createdAt": "2026-09-13T21:05:00Z", "author": {"login": "al"}, "state": "OPEN", "meta": {"k": 1}}"#);
    assert!(cell_datetime(&row, &"createdAt".to_string()));
    assert!(!cell_datetime(&row, &"state".to_string()));
    assert_eq!(cell_tooltip(&row, &"createdAt".to_string(), &ex, &TextMap::new()), "2026-09-13T21:05:00Z");
    assert_eq!(cell_tooltip(&row, &"author".to_string(), &ex, &TextMap::new()), "{\n  \"login\": \"al\"\n}");
    assert_eq!(cell_tooltip(&row, &"meta".to_string(), &ex, &TextMap::new()), "{\"k\":1}");
    assert_eq!(cell_tooltip(&row, &"state".to_string(), &ex, &TextMap::new()), "OPEN");
    let f = filters_of(&[("state", &["OPEN"])]);
    assert!(filter_is_active(&f, &"state".to_string(), &"OPEN".to_string()));
    assert!(!filter_is_active(&f, &"state".to_string(), &"CLOSED".to_string()));
    assert!(!filter_is_active(&f, &"author".to_string(), &"al".to_string()));
}

use gh_projects_web::gh_query::{note_map_key, result_rows, row_note_prefill};
use gh_projects_web::types::Note;

#[test]
fn notes_attach_to_rows() {
    let note = |repo: Option<&str>, t: Option<&str>, n: Option<i64>| Note {
        id: 1,
        title: String::new(),
        body: String::new(),
        repo: repo.map(|s| s.to_string()),
        ref_type: t.map(|s| s.to_string()),
        ref_number: n,
        tags: "[]".to_string(),
        created_at: String::new(),
        updated_at: String::new(),
    };
    assert_eq!(note_map_key(&note(Some("o/r"), Some("pr"), Some(4))), Some("o/r|pr|4".to_string()));
    assert_eq!(note_map_key(&note(Some("o/r"), None, Some(4))), None);
    let row = j(r#"{"title": "T", "number": 4, "repository": {"nameWithOwner": "o/r"}, "isPullRequest": true}"#);
    let p = row_note_prefill(&row, &strs(&["issue list"]));
    assert_eq!((p.title.as_str(), p.repo.clone(), p.ref_type.clone(), p.ref_number), ("T", Some("o/r".to_string()), Some("pr".to_string()), Some(4)));
    let q = row_note_prefill(&j("{}"), &strs(&["pr list"]));
    assert_eq!((q.title.as_str(), q.repo.clone(), q.ref_type.clone(), q.ref_number), ("", None, Some("pr".to_string()), None));
}

#[test]
fn date_text_fallback() {
    assert_eq!(date_text_or("2026-09-07", Some("Sep 7, 2026".to_string())), "Sep 7, 2026");
    assert_eq!(date_text_or("not a date", None), "not a date");
    assert_eq!(date_text_or("", None), "");
}

#[test]
fn author_rows_gain_an_author_group_column() {
    let rows = vec![
        j(r#"{"number": 1, "author": {"login": "Al", "is_bot": false}}"#),
        j(r#"{"number": 2, "author": {"login": "renovate", "is_bot": true}}"#),
        j(r#"{"number": 3, "author": {"login": "cy"}}"#),
        j(r#"{"number": 4}"#),
    ];
    assert_eq!(all_keys(&None, &rows), strs(&["author", "number", "authorGroup"]));
    assert_eq!(all_keys(&None, &rows[3..]), strs(&["number"]));
    assert_eq!(all_keys(&Some(strs(&["number"])), &rows), strs(&["number"]));
    let only_author = vec![j(r#"{"author": {"login": "al"}}"#)];
    assert_eq!(all_keys(&None, &only_author), strs(&["author", "authorGroup"]));
    assert_eq!(
        visible_keys(&all_keys(&None, &only_author), &strs(&["authorGroup"])),
        strs(&["author"])
    );
    let own = vec![j(r#"{"author": {"login": "al"}, "authorGroup": "x"}"#)];
    assert_eq!(all_keys(&None, &own), strs(&["author", "authorGroup"]));

    let mut roster = TextMap::new();
    roster.insert("al".to_string(), "team".to_string());
    let ex = default_field_extractors();
    let g = "authorGroup".to_string();
    assert_eq!(cell_text(&rows[0], &g, &ex, &roster), "team");
    assert_eq!(cell_text(&rows[1], &g, &ex, &roster), "bot");
    assert_eq!(cell_text(&rows[2], &g, &ex, &roster), "community");
    assert_eq!(cell_text(&rows[3], &g, &ex, &roster), "");
    assert_eq!(cell_text(&rows[0], &g, &ex, &TextMap::new()), "community");
    assert_eq!(cell_text(&own[0], &g, &ex, &roster), "x");
    assert_eq!(cell_tooltip(&rows[0], &g, &ex, &roster), "team");
    let all: Vec<usize> = vec![0, 1, 2, 3];
    assert_eq!(
        filter_rows(&rows, &all, &filters_of(&[("authorGroup", &["community"])]), &ex, &roster),
        vec![2]
    );
    assert_eq!(column_values(&rows, &all, &g, &ex, &roster), strs(&["team", "bot", "community", ""]));
}

#[test]
fn hidden_columns_default_to_url() {
    assert_eq!(hidden_columns(None), strs(&["url"]));
    assert_eq!(hidden_columns(Some(Vec::new())), Vec::<String>::new());
    assert_eq!(hidden_columns(Some(strs(&["a", "b"]))), strs(&["a", "b"]));
}

fn tile_with(kind: &str, config: &str) -> Tile {
    Tile { config: config.to_string(), ..tile_of(kind) }
}

#[test]
fn pasting_reads_the_config_text() {
    let p = tile_paste_values(&tile_with(
        "gh_query",
        r#"{"commands": ["pr list", 3], "variables": {"a": "b"}}"#,
    ));
    assert_eq!(p.title, "T (copy)");
    assert_eq!(p.commands, Some(strs(&["pr list"])));
    assert_eq!(p.variables_json, Some("{\n  \"a\": \"b\"\n}".to_string()));
    let broken = tile_paste_values(&tile_with("gh_query", "not json"));
    assert_eq!(broken.commands, Some(strs(&[""])));
    assert_eq!(broken.variables_json, Some(String::new()));
    let n = tile_paste_values(&tile_with("note", r#"{"note_id": 41}"#));
    assert_eq!(n.note_id, Some("41".to_string()));
    assert_eq!(tile_paste_values(&tile_with("note", "")).note_id, Some("0".to_string()));
}

#[test]
fn note_tiles_read_their_note_id() {
    assert_eq!(note_tile_id(&tile_with("note", r#"{"note_id": 7}"#)), 7);
    assert_eq!(note_tile_id(&tile_with("note", r#"{"note_id": "7"}"#)), 0);
    assert_eq!(note_tile_id(&tile_with("note", "{")), 0);
    assert_eq!(note_tile_id(&tile_with("note", "[1]")), 0);
}

#[test]
fn config_text_decodes_into_json() {
    let c = decode_config(r#"{"b": [1, "x"], "a": {"k": null}}"#);
    match c {
        Json::Object { entries, compact, .. } => {
            assert_eq!(compact, r#"{"a":{"k":null},"b":[1,"x"]}"#);
            assert_eq!(entries.len(), 2);
            assert_eq!(entries[0].0, "a");
        }
        _ => panic!("expected an object"),
    }
    match decode_config("oops") {
        Json::Object { entries, compact, .. } => {
            assert!(entries.is_empty());
            assert_eq!(compact, "{}");
        }
        _ => panic!("expected an object"),
    }
}

#[test]
fn rows_of_every_successful_command() {
    let results = vec![
        ("gh pr list --repo o/r".to_string(), Ok(j(r#"[{"number": 1}, {"number": 2, "repository": {"name": "x"}}, 5]"#))),
        ("gh issue list".to_string(), Err("boom".to_string())),
        ("gh issue view 3 -R a/b".to_string(), Ok(j(r#"{"number": 3, "repository": null}"#))),
        ("gh api x".to_string(), Ok(j(r#"{"number": 4}"#))),
    ];
    let rows = result_rows(results);
    let patches: Vec<Option<(String, String)>> = rows.iter().map(|(_, p)| p.clone()).collect();
    assert_eq!(
        patches,
        vec![
            Some(("o/r".to_string(), "r".to_string())),
            None,
            None,
            Some(("a/b".to_string(), "b".to_string())),
            None,
        ]
    );
    let numbers: Vec<Option<i64>> =
        rows.iter().map(|(r, _)| r.get("number").and_then(|n| n.as_i64())).collect();
    assert_eq!(numbers, vec![Some(1), Some(2), None, Some(3), Some(4)]);
    assert!(result_rows(Vec::new()).is_empty());
}
