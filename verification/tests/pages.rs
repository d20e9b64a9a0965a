use gh_projects_web::display::{scoreboard_totals, ActivityCounts};
use gh_projects_web::api::{enc, error_message, error_message_from, notes_list_path, Filter};
use gh_projects_web::backup::{backup_filename, restore_report};
use gh_projects_web::calendar::{day_pills, pill_class, pill_key, pill_label};
use gh_projects_web::dashboard::{build_layout, grid_cell, layout_ids_changed};
use gh_projects_web::display::{
    age_class, group_color, group_label, note_github_url, state_icon, StateIcon,
};
use gh_projects_web::forms::{
    add_step, filled_commands, item_input, json_field_text, not_object_error, note_input,
    parse_trimmed_i64, tile_title, trimmed,
};
use gh_projects_web::markdown::{
    md_to_html, strip_html_comments, to_html, to_html_blank_links, to_html_stripped_comments,
};
use gh_projects_web::releases::{semver_key, sort_tags};
use gh_projects_web::settings::{author_group, global_extractors, stage_emojis, tile_extractors};
use gh_projects_web::text_map::TextMap;
use gh_projects_web::types::{
    CalendarComponent, CalendarEvent, ChecklistItem, Note, Tile, TileLayout,
};

fn strs(v: &[&str]) -> Vec<String> {
    v.iter().map(|s| s.to_string()).collect()
}

fn map(pairs: &[(&str, &str)]) -> TextMap<String> {
    let mut m = TextMap::new();
    for (k, v) in pairs {
        m.insert(k.to_string(), v.to_string());
    }
    m
}

#[test]
fn markdown_rendering() {
    assert_eq!(to_html("**a**"), "<p><strong>a</strong></p>\n");
    assert_eq!(to_html("~~x~~"), "<p><del>x</del></p>\n");
    assert_eq!(
        to_html_blank_links("[x](http://e)"),
        "<p><a target=\"_blank\" rel=\"noopener noreferrer\" href=\"http://e\">x</a></p>\n"
    );
    assert_eq!(md_to_html("~~x~~"), "<p><del>x</del></p>\n");
    assert_eq!(
        md_to_html("[x](http://e)"),
        "<p><a target=\"_blank\" rel=\"noopener noreferrer\" href=\"http://e\">x</a></p>\n"
    );
}

#[test]
fn html_comments_are_stripped() {
    assert_eq!(strip_html_comments("a<!-- c -->b"), "ab");
    assert_eq!(strip_html_comments("a<!-- c -->b<!-- open"), "ab");
    assert_eq!(strip_html_comments("no comments"), "no comments");
    assert_eq!(strip_html_comments("x<!-->y"), "xy");
    assert_eq!(to_html_stripped_comments("<!-- t -->hi"), "<p>hi</p>\n");
}

#[test]
fn extractor_layers_merge_in_order() {
    let global = global_extractors(map(&[("assignees", "login"), ("reviewRequests", "login")]));
    assert_eq!(global.get(&"assignees".to_string()), Some(&"login".to_string()));
    assert_eq!(global.get(&"author".to_string()), Some(&"login".to_string()));
    assert_eq!(global.get(&"repository".to_string()), Some(&"nameWithOwner".to_string()));
    assert_eq!(global.get(&"reviewRequests".to_string()), Some(&"login".to_string()));
    let tile = tile_extractors(global.clone(), Some(map(&[("author", "name")])));
    assert_eq!(tile.get(&"author".to_string()), Some(&"name".to_string()));
    assert_eq!(tile.get(&"assignees".to_string()), Some(&"login".to_string()));
    let none = tile_extractors(global, None);
    assert_eq!(none.get(&"author".to_string()), Some(&"login".to_string()));
}

#[test]
fn author_groups() {
    let roster = map(&[("alice", "team"), ("review-helper", "bot"), ("pat", "pe")]);
    assert_eq!(author_group(&roster, "Alice", false), "team");
    assert_eq!(author_group(&roster, "Alice", true), "bot");
    assert_eq!(author_group(&roster, "dependabot[bot]", false), "bot");
    assert_eq!(author_group(&roster, "review-helper", false), "bot");
    assert_eq!(author_group(&roster, "PAT", false), "pe");
    assert_eq!(author_group(&roster, "zed", false), "community");
}

#[test]
fn stage_emoji_defaults_and_overrides() {
    let e = stage_emojis(TextMap::new());
    assert_eq!(e.get(&"blocked".to_string()), Some(&":red_circle:".to_string()));
    assert_eq!(e.get(&"done".to_string()), Some(&":white_check_mark:".to_string()));
    let o = stage_emojis(map(&[("blocked", ":fire:")]));
    assert_eq!(o.get(&"blocked".to_string()), Some(&":fire:".to_string()));
    assert_eq!(o.get(&"todo".to_string()), Some(&":white_circle:".to_string()));
}

#[test]
fn uri_encoding_and_notes_path() {
    assert_eq!(enc("a b&c/é"), "a%20b%26c%2F%C3%A9");
    assert_eq!(enc("A-z_0.!~*'()"), "A-z_0.!~*'()");
    assert_eq!(notes_list_path(&Filter::default()), "/api/notes");
    let f = Filter { repo: Some("o/r".to_string()), ref_type: None, ref_number: Some(3) };
    assert_eq!(notes_list_path(&f), "/api/notes?repo=o%2Fr&ref_number=3");
    let g = Filter {
        repo: Some("o/r".to_string()),
        ref_type: Some("pr".to_string()),
        ref_number: Some(-4),
    };
    assert_eq!(notes_list_path(&g), "/api/notes?repo=o%2Fr&ref_type=pr&ref_number=-4");
}

#[test]
fn request_error_messages() {
    assert_eq!(error_message(500, "{\"error\":\"boom\"}".to_string()), "boom");
    assert_eq!(error_message(404, String::new()), "HTTP 404");
    assert_eq!(error_message(500, "plain".to_string()), "plain");
    assert_eq!(error_message(500, "{\"error\": 3}".to_string()), "{\"error\": 3}");
    assert_eq!(error_message_from(502, String::new(), Some("m".to_string())), "m");
}

#[test]
fn semver_keys() {
    assert_eq!(semver_key("v1.2.3"), (1, 2, 3, true));
    assert_eq!(semver_key("V2.0.0-rc1"), (2, 0, 0, false));
    assert_eq!(semver_key("1.2"), (1, 2, 0, true));
    assert_eq!(semver_key("vv3.x.1+b"), (3, 0, 1, true));
    assert_eq!(semver_key("1.2.3+build.5"), semver_key("1.2.3"));
    assert_eq!(semver_key("1.2.3+build.5"), (1, 2, 3, true));
    assert_eq!(semver_key("1.2.3-rc.1+build.5"), (1, 2, 3, false));
    assert_eq!(semver_key("1.2.3+build-5"), (1, 2, 3, true));
    assert_eq!(semver_key("1.2.3.4"), (1, 2, 3, true));
    assert_eq!(semver_key(""), (0, 0, 0, true));
}

#[test]
fn tags_sort_newest_first_and_stably() {
    let tags = strs(&["v1.2.0", "v1.10.0-rc1", "v1.10.0", "v0.9.9"]);
    assert_eq!(sort_tags(&tags), strs(&["v1.10.0", "v1.10.0-rc1", "v1.2.0", "v0.9.9"]));
    let same = strs(&["v1.0.0", "1.0.0", "V1.0.0"]);
    assert_eq!(sort_tags(&same), same);
}

#[test]
fn form_fields() {
    assert_eq!(trimmed("  a b "), "a b");
    assert_eq!(filled_commands(&strs(&["  a ", "", " ", " b"])), strs(&["a", "b"]));
    assert_eq!(tile_title("  ", "GH Query"), "GH Query");
    assert_eq!(tile_title(" Mine ", "GH Query"), "Mine");
    assert_eq!(json_field_text("  "), "{}");
    assert_eq!(json_field_text(" {\"a\": 1} "), " {\"a\": 1} ");
    assert_eq!(not_object_error("Variables"), "Variables must be a JSON object");
    assert_eq!(parse_trimmed_i64(" 42 "), Some(42));
    assert_eq!(parse_trimmed_i64("4 2"), None);
}

#[test]
fn note_and_item_inputs() {
    let n = note_input("T".to_string(), "B".to_string(), " o/r ", "  ", "12");
    assert_eq!(n.repo, Some("o/r".to_string()));
    assert_eq!(n.ref_type, None);
    assert_eq!(n.ref_number, Some(12));
    assert_eq!(n.body, Some("B".to_string()));
    assert!(item_input("   ", "", "", String::new(), "todo".to_string(), vec![], "").is_none());
    let i = item_input(" fix ", "pr", " 7 ", "n".to_string(), "todo".to_string(), vec![], "x")
        .unwrap();
    assert_eq!(i.label, "fix");
    assert_eq!(i.ref_type, Some("pr".to_string()));
    assert_eq!(i.ref_number, Some(7));
    assert_eq!(i.depends_on, None);
    let mut steps: Vec<ChecklistItem> = Vec::new();
    add_step(&mut steps, "   ");
    assert!(steps.is_empty());
    add_step(&mut steps, " ship it ");
    assert_eq!(steps, vec![ChecklistItem { text: "ship it".to_string(), done: false }]);
}

#[test]
fn backup_names_and_reports() {
    assert_eq!(
        backup_filename("2026-09-13T21:05:07.123Z"),
        "gh_project_backup_20260913T2105.json"
    );
    assert_eq!(backup_filename("2026"), "gh_project_backup_2026.json");
    assert_eq!(restore_report(3, 0, 0, None), "3 link(s) restored");
    assert_eq!(
        restore_report(3, 1, 2, Some("/x/db".to_string())),
        "3 link(s) restored · 1 link(s) dropped — target missing from the backup · 2 release watch(es) skipped — repo not found · previous database saved to /x/db"
    );
}

fn note(repo: Option<&str>, ref_type: Option<&str>, n: Option<i64>) -> Note {
    Note {
        id: 1,
        title: String::new(),
        body: String::new(),
        repo: repo.map(|s| s.to_string()),
        ref_type: ref_type.map(|s| s.to_string()),
        ref_number: n,
        tags: "[]".to_string(),
        created_at: String::new(),
        updated_at: String::new(),
    }
}

#[test]
fn display_rules() {
    assert_eq!(state_icon("merged", true), StateIcon::Merged);
    assert_eq!(state_icon("closed", true), StateIcon::Closed);
    assert_eq!(state_icon("draft", false), StateIcon::PullRequest);
    assert_eq!(state_icon("open", true), StateIcon::PullRequest);
    assert_eq!(state_icon("open", false), StateIcon::OpenIssue);
    assert_eq!(group_label("pe"), "PE");
    assert_eq!(group_label("team"), "Team");
    assert_eq!(group_label("zzz"), "Team");
    assert_eq!(group_color("bot"), "#8b949e");
    assert_eq!(group_color("community"), "#e3b341");
    assert_eq!(age_class(31), "ts-age ts-age-bad");
    assert_eq!(age_class(8), "ts-age ts-age-warn");
    assert_eq!(age_class(7), "ts-age ts-age-fresh");
    assert_eq!(
        note_github_url(&note(Some("o/r"), Some("pr"), Some(5))),
        Some("https://github.com/o/r/pull/5".to_string())
    );
    assert_eq!(
        note_github_url(&note(Some("o/r"), Some("issue"), Some(5))),
        Some("https://github.com/o/r/issues/5".to_string())
    );
    assert_eq!(note_github_url(&note(Some("o/r"), Some("pr"), None)), None);
    assert_eq!(note_github_url(&note(None, Some("pr"), Some(1))), None);
}

fn tile(id: i64) -> Tile {
    Tile {
        id,
        dashboard_id: 1,
        title: "T".to_string(),
        tile_type: "gh_query".to_string(),
        config: "{}".to_string(),
        layout: "{}".to_string(),
        created_at: String::new(),
        updated_at: String::new(),
    }
}

#[test]
fn grid_cells() {
    let c = grid_cell(7, TileLayout { x: 1, y: 2, w: 0, h: 5 });
    assert_eq!((c.id.as_str(), c.x, c.y, c.w, c.h, c.min_w, c.min_h), ("7", 1, 2, 1, 5, 2, 2));
    let cells = build_layout(&vec![tile(3), tile(4)], &vec![TileLayout::default(), TileLayout { x: 4, y: 0, w: -3, h: 0 }]);
    assert_eq!(cells.len(), 2);
    assert_eq!((cells[0].w, cells[0].h), (4, 4));
    assert_eq!((cells[1].id.as_str(), cells[1].w, cells[1].h), ("4", 1, 1));
    assert!(!layout_ids_changed(&vec![3, 1], &strs(&["1", "3"])));
    assert!(layout_ids_changed(&vec![1], &strs(&["1", "2"])));
    assert!(layout_ids_changed(&vec![2, 2], &strs(&["2"])));
    assert!(!layout_ids_changed(&vec![], &strs(&["x"])));
}

fn ev(id: i64, comp: Option<i64>, date: &str, actual: Option<&str>) -> CalendarEvent {
    CalendarEvent {
        id,
        calendar_id: 1,
        component_id: comp,
        version: format!("v{id}"),
        status: "on_track".to_string(),
        release_date: date.to_string(),
        actual_release_date: actual.map(|s| s.to_string()),
        note: String::new(),
        created_at: String::new(),
        updated_at: String::new(),
    }
}

#[test]
fn calendar_day_pills() {
    let comps = vec![CalendarComponent {
        id: 1,
        calendar_id: 1,
        name: "Gateway".to_string(),
        short_name: Some("GW".to_string()),
        color: "#ff0000".to_string(),
        position: 0,
        created_at: String::new(),
        updated_at: String::new(),
    }];
    let evs = vec![
        ev(1, Some(1), "2026-01-05", Some("2026-01-05")),
        ev(2, None, "2026-01-03", Some("2026-01-05")),
        ev(3, Some(1), "2026-01-06", None),
    ];
    let p = day_pills(&evs, &comps, 5, None, Some(2));
    assert_eq!(p.len(), 2);
    assert_eq!((p[0].event_id, p[0].is_actual, p[0].has_actual), (1, true, true));
    assert_eq!((p[0].color.as_str(), p[0].comp_name.as_str()), ("#ff0000", "GW"));
    assert_eq!((p[1].event_id, p[1].is_actual, p[1].is_selected), (2, true, true));
    assert_eq!((p[1].color.as_str(), p[1].comp_name.as_str()), ("#8b949e", ""));
    let only = day_pills(&evs, &comps, 5, Some(1), None);
    assert_eq!(only.len(), 1);
    assert_eq!(pill_class(true, false, true), "cal-event-pill actual");
    assert_eq!(pill_class(false, true, true), "cal-event-pill planned-done selected");
    assert_eq!(pill_key(7, true), "7-a");
    assert_eq!(pill_label(true, true, "GW", "v1"), "✓ GW v1");
    assert_eq!(pill_label(true, false, "", "v1"), "v1");
    assert_eq!(pill_label(false, false, "GW", "v1"), "");
}

use gh_projects_web::calendar::{
    jump_keys_fit_exec, jump_target, month_offset, month_offset_fits_exec, shown_event_count,
};
use gh_projects_web::dashboard::layout_updates;
use gh_projects_web::display::{avatar_url, badge_class, detail_command};
use gh_projects_web::forms::{created_name, renamed};
use gh_projects_web::releases::{move_watch_down, move_watch_up};

#[test]
fn detail_command_and_links() {
    assert_eq!(
        detail_command("issue", 5, "o/r"),
        "issue view 5 --repo o/r --json number,title,state,body,author,assignees,labels,milestone,comments,url,createdAt,updatedAt"
    );
    assert!(detail_command("pr", 5, "o/r").ends_with(",isDraft,headRefName,baseRefName,reviewDecision"));
    assert_eq!(avatar_url("al"), "https://github.com/al.png?size=20");
    assert_eq!(badge_class("merged", true), "badge badge-merged");
    assert_eq!(badge_class("closed", false), "badge badge-closed");
    assert_eq!(badge_class("weird", false), "badge badge-open");
}

#[test]
fn watch_order_moves() {
    let ids = vec![1i64, 2, 3];
    assert_eq!(move_watch_up(&ids, 2), Some(vec![2, 1, 3]));
    assert_eq!(move_watch_up(&ids, 1), None);
    assert_eq!(move_watch_up(&ids, 9), None);
    assert_eq!(move_watch_down(&ids, 2), Some(vec![1, 3, 2]));
    assert_eq!(move_watch_down(&ids, 3), None);
    let down = move_watch_down(&ids, 1).unwrap();
    assert_eq!(move_watch_up(&down, 1), Some(ids));
}

#[test]
fn names_of_new_and_renamed_things() {
    assert_eq!(created_name("  Ops  "), Some("Ops".to_string()));
    assert_eq!(created_name("   "), None);
    assert_eq!(renamed(" New ", "Old"), Some("New".to_string()));
    assert_eq!(renamed(" Old ", "Old"), None);
    assert_eq!(renamed("  ", "Old"), None);
}

#[test]
fn layout_saves_after_drag() {
    let cells = vec![grid_cell(3, TileLayout { x: 1, y: 2, w: 3, h: 4 })];
    let ups = layout_updates(&cells);
    assert_eq!(ups, vec![(3, TileLayout { x: 1, y: 2, w: 3, h: 4 })]);
}

#[test]
fn calendar_navigation() {
    assert_eq!(month_offset(2026, 3, 2026, 1), 2);
    assert_eq!(month_offset(2025, 12, 2026, 1), -1);
    assert!(month_offset_fits_exec(2026, 3, 2026, 1));
    assert!(!month_offset_fits_exec(i32::MAX, 3, 2026, 1));
    let evs = vec![
        ev(1, Some(1), "2026-01-05", None),
        ev(2, Some(1), "2026-03-01", None),
        ev(3, Some(1), "2026-02-10", None),
        ev(4, Some(2), "2026-01-20", None),
    ];
    let today = (2026, 1, 15);
    assert!(jump_keys_fit_exec(&evs, 1, today));
    assert_eq!(jump_target(&evs, 1, today), Some((2026, 2, 10)));
    assert_eq!(jump_target(&evs, 1, (2026, 6, 1)), Some((2026, 3, 1)));
    assert_eq!(jump_target(&evs, 9, today), None);
    assert_eq!(shown_event_count(&evs, Some(1)), 3);
    assert_eq!(shown_event_count(&evs, None), 4);
}

use gh_projects_web::display::{next_worklist_sort, repo_picker_label};

#[test]
fn team_stats_controls() {
    assert_eq!(repo_picker_label(&vec![]), "All repos");
    assert_eq!(repo_picker_label(&strs(&["kgateway-dev/kgateway"])), "kgateway");
    assert_eq!(repo_picker_label(&strs(&["a/x", "b/y"])), "2 repos");
    assert_eq!(next_worklist_sort("oldest"), "newest");
    assert_eq!(next_worklist_sort("newest"), "oldest");
}

use gh_projects_web::forms::{
    component_input, group_input, limit_input, release_list_command, repo_input, repo_pick,
};
use gh_projects_web::types::Repo;

#[test]
fn registry_group_and_component_forms() {
    let g = group_input(" Envoy ", " 7 ", " o/envoy ").unwrap();
    assert_eq!((g.name.as_str(), g.repo_id, g.repo.clone()), ("Envoy", Some(7), Some("o/envoy".to_string())));
    let h = group_input("x", "", " ").unwrap();
    assert_eq!((h.repo_id, h.repo.clone()), (None, None));
    assert!(group_input("  ", "1", "o/r").is_none());
    assert!(repo_input("Envoy", "  ").is_none());
    let r = repo_input(" Envoy ", " o/envoy ").unwrap();
    assert_eq!((r.name.as_str(), r.owner_repo.as_str()), ("Envoy", "o/envoy"));
    let c = component_input(" Gateway ", "  ", "#fff".to_string()).unwrap();
    assert_eq!((c.name.as_str(), c.short_name.clone(), c.color.clone()), ("Gateway", None, Some("#fff".to_string())));
    assert!(component_input(" ", "GW", "#fff".to_string()).is_none());
    assert_eq!(limit_input("7", 4), 7);
    assert_eq!(limit_input("21", 4), 4);
    assert_eq!(limit_input("0", 4), 4);
    assert_eq!(limit_input("abc", 4), 4);
    assert_eq!(limit_input("99999999999", 4), 4);
    assert_eq!(release_list_command("o/r", 5), "release list --repo o/r --limit 5 --json tagName");
    let repos = vec![Repo {
        id: 3,
        name: "Envoy".to_string(),
        owner_repo: "o/envoy".to_string(),
        position: 0,
        created_at: String::new(),
        updated_at: String::new(),
    }];
    assert_eq!(repo_pick(&repos, "3", "  "), Some((Some("Envoy".to_string()), "o/envoy".to_string())));
    assert_eq!(repo_pick(&repos, "3", "Mine"), Some((None, "o/envoy".to_string())));
    assert_eq!(repo_pick(&repos, "4", ""), None);
    assert_eq!(repo_pick(&repos, "", ""), None);
}

#[test]
fn blank_links_leave_no_plain_anchor() {
    let html = to_html_blank_links("[a](http://a) and <a href=\"x\">raw</a> [b](http://b)");
    assert!(!html.contains("<a href="));
    assert_eq!(html.matches("<a target=\"_blank\" rel=\"noopener noreferrer\" href=").count(), 3);
}

#[test]
fn scoreboard_totals_sum_each_column() {
    let row = |o, d, m, r, a| ActivityCounts {
        prs_opened: o,
        prs_draft: d,
        prs_merged: m,
        prs_reviewed: r,
        approvals: a,
    };
    let rows = vec![row(3, 1, 2, 5, 4), row(0, 2, 0, 7, 1), row(4, 0, 3, 0, 0)];
    assert_eq!(scoreboard_totals(&rows), row(7, 3, 5, 12, 5));
    assert_eq!(scoreboard_totals(&Vec::new()), row(0, 0, 0, 0, 0));
}
