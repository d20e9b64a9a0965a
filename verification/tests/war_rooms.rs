use gh_projects_web::settings::stage_emojis;
use gh_projects_web::text_map::TextMap;
use gh_projects_web::types::{GroupWithItems, WarRoomGroup, WarRoomItem};
use gh_projects_web::war_room::{
    build_item_index, dependency_options, effective_stage, generate_slack_update, github_url,
    group_rollup_stage, slack_item_label, split_product_version, stage_badge_class, stage_label,
};

fn strs(v: &[&str]) -> Vec<String> {
    v.iter().map(|s| s.to_string()).collect()
}

fn item(id: i64, group_id: i64, label: &str, stage: &str, note: &str, source: Option<i64>) -> WarRoomItem {
    WarRoomItem {
        id,
        group_id,
        label: label.to_string(),
        ref_type: None,
        ref_number: None,
        note: note.to_string(),
        stage: stage.to_string(),
        checklist: "[]".to_string(),
        depends_on: None,
        source_item_id: source,
        position: 0,
        created_at: String::new(),
        updated_at: String::new(),
    }
}

fn group(id: i64, name: &str, items: Vec<WarRoomItem>) -> GroupWithItems {
    GroupWithItems {
        group: WarRoomGroup {
            id,
            war_room_id: 1,
            repo_id: None,
            name: name.to_string(),
            repo: Some("o/r".to_string()),
            position: 0,
            created_at: String::new(),
            updated_at: String::new(),
        },
        items,
    }
}

#[test]
fn stage_labels_and_badges() {
    assert_eq!(stage_label("in_progress"), "In progress");
    assert_eq!(stage_label("done"), "Done");
    assert_eq!(stage_label("weird"), "weird");
    assert_eq!(stage_badge_class("done"), "wr-badge-done");
    assert_eq!(stage_badge_class("released"), "wr-badge-done");
    assert_eq!(stage_badge_class("blocked"), "wr-badge-blocked");
    assert_eq!(stage_badge_class("todo"), "wr-badge-todo");
    assert_eq!(stage_badge_class("zzz"), "wr-badge-todo");
}

#[test]
fn github_links() {
    assert_eq!(github_url("o/r", Some("issue"), 5), "https://github.com/o/r/issues/5");
    assert_eq!(github_url("o/r", Some("pr"), 5), "https://github.com/o/r/pull/5");
    assert_eq!(github_url("o/r", None, 5), "https://github.com/o/r/pull/5");
}

#[test]
fn rollup_blocked_wins_then_furthest_then_in_progress() {
    assert_eq!(group_rollup_stage(&strs(&["merged", "released"])), Some("released".to_string()));
    assert_eq!(group_rollup_stage(&strs(&["done", "merged"])), Some("done".to_string()));
    assert_eq!(group_rollup_stage(&strs(&["released", "blocked"])), Some("blocked".to_string()));
    assert_eq!(group_rollup_stage(&strs(&["todo", "merged"])), Some("in_progress".to_string()));
    assert_eq!(group_rollup_stage(&strs(&["todo"])), Some("in_progress".to_string()));
    assert_eq!(group_rollup_stage(&[]), None);
}

#[test]
fn product_and_version_split() {
    assert_eq!(
        split_product_version("kgateway OSS v2.3.3"),
        ("kgateway OSS".to_string(), Some("v2.3.3".to_string()))
    );
    assert_eq!(split_product_version("Envoy Releases"), ("Envoy Releases".to_string(), None));
    assert_eq!(split_product_version("foo 2"), ("foo".to_string(), Some("2".to_string())));
    assert_eq!(split_product_version("  solo  "), ("solo".to_string(), None));
    assert_eq!(split_product_version("x vnext"), ("x vnext".to_string(), None));
}

fn room() -> Vec<GroupWithItems> {
    vec![
        group(1, "kgateway OSS v2.3.3", vec![item(10, 1, "fix CVE", "merged", "", None)]),
        group(2, "kgateway OSS v2.2.6", vec![item(20, 2, "backport", "blocked", " waiting ", None)]),
        group(3, "Envoy Releases", vec![item(30, 3, "v1.37.4", "released", "", None)]),
        group(4, "Tracker", vec![item(40, 4, "mirror", "todo", "", Some(30))]),
    ]
}

#[test]
fn mirrors_follow_their_source() {
    let groups = room();
    let index = build_item_index(&groups);
    let mirror = &groups[3].items[0];
    assert_eq!(effective_stage(mirror, &index), "released");
    assert_eq!(slack_item_label(mirror, &index), "Envoy Releases / v1.37.4");
    let plain = &groups[0].items[0];
    assert_eq!(effective_stage(plain, &index), "merged");
    assert_eq!(slack_item_label(plain, &index), "fix CVE");
}

#[test]
fn slack_update_nests_releases_under_products() {
    let groups = room();
    let index = build_item_index(&groups);
    let emojis = stage_emojis(TextMap::new());
    let full = generate_slack_update("CVE-1", &groups, &index, &emojis, true);
    assert_eq!(
        full,
        "Here is the latest status on CVE-1:\n\
         \nkgateway OSS:\n\
         - :large_blue_circle: v2.3.3\n\
         \x20   - :large_blue_circle: fix CVE\n\
         - :red_circle: v2.2.6\n\
         \x20   - :red_circle: backport (waiting)\n\
         \nEnvoy Releases:\n\
         - :white_check_mark: v1.37.4\n\
         \nTracker:\n\
         - :white_check_mark: Envoy Releases / v1.37.4\n"
    );
    let brief = generate_slack_update("CVE-1", &groups, &index, &emojis, false);
    assert_eq!(
        brief,
        "Here is the latest status on CVE-1:\n\
         \nkgateway OSS:\n\
         - :large_blue_circle: v2.3.3\n\
         - :red_circle: v2.2.6\n\
         \nEnvoy Releases:\n\
         - :white_check_mark: v1.37.4\n\
         \nTracker:\n\
         - :white_check_mark: Envoy Releases / v1.37.4\n"
    );
    let kept: String = full
        .split_inclusive('\n')
        .filter(|line| !line.starts_with("    - "))
        .collect();
    assert_eq!(kept, brief);
}

#[test]
fn dependency_choices_leave_out_mirrors() {
    let groups = room();
    let opts = dependency_options(&groups);
    assert_eq!(
        opts,
        vec![
            (10, "kgateway OSS v2.3.3 / fix CVE".to_string()),
            (20, "kgateway OSS v2.2.6 / backport".to_string()),
            (30, "Envoy Releases / v1.37.4".to_string()),
        ]
    );
}

use gh_projects_web::types::ChecklistItem;
use gh_projects_web::war_room::{dependency_label, done_count, item_link, neighbour, row_display};

#[test]
fn item_rows_show_their_source() {
    let groups = room();
    let index = build_item_index(&groups);
    let mirror = &groups[3].items[0];
    let (shown, repo, src) = row_display(mirror, &Some("x/y".to_string()), &index);
    assert_eq!((shown.id, repo, src), (30, Some("o/r".to_string()), Some("Envoy Releases".to_string())));
    let orphan = item(50, 4, "gone", "todo", "", Some(999));
    let (shown, repo, src) = row_display(&orphan, &Some("x/y".to_string()), &index);
    assert_eq!((shown.id, repo, src), (50, Some("x/y".to_string()), Some("removed".to_string())));
    let plain = &groups[0].items[0];
    assert_eq!(row_display(plain, &None, &index).2, None);
}

#[test]
fn item_row_details() {
    let steps = vec![
        ChecklistItem { text: "a".to_string(), done: true },
        ChecklistItem { text: "b".to_string(), done: false },
        ChecklistItem { text: "c".to_string(), done: true },
    ];
    assert_eq!(done_count(&steps), 2);
    let mut it = item(1, 1, "x", "todo", "", None);
    assert_eq!(item_link(&Some("o/r".to_string()), &it), None);
    it.ref_number = Some(4);
    it.ref_type = Some("issue".to_string());
    assert_eq!(item_link(&Some("o/r".to_string()), &it), Some("https://github.com/o/r/issues/4".to_string()));
    assert_eq!(item_link(&Some(String::new()), &it), None);
    assert_eq!(item_link(&None, &it), None);
    let groups = room();
    let index = build_item_index(&groups);
    it.depends_on = Some(20);
    assert_eq!(dependency_label(&it, &index), Some("backport (Blocked)".to_string()));
    it.depends_on = Some(77);
    assert_eq!(dependency_label(&it, &index), None);
    assert_eq!(neighbour(0, -1, 3), None);
    assert_eq!(neighbour(1, -1, 3), Some(0));
    assert_eq!(neighbour(2, 1, 3), None);
    assert_eq!(neighbour(1, 1, 3), Some(2));
    assert_eq!(neighbour(0, i32::MIN, 3), None);
}

use gh_projects_web::war_room::{link_candidates, mirror_input};

#[test]
fn link_dialog_choices() {
    let groups = room();
    assert_eq!(
        link_candidates(&groups, 4),
        vec![
            (10, "kgateway OSS v2.3.3 / fix CVE".to_string()),
            (20, "kgateway OSS v2.2.6 / backport".to_string()),
        ]
    );
    assert_eq!(
        link_candidates(&groups, 1),
        vec![
            (20, "kgateway OSS v2.2.6 / backport".to_string()),
            (30, "Envoy Releases / v1.37.4".to_string()),
        ]
    );
    let index = build_item_index(&groups);
    let m = mirror_input(&index, 30);
    assert_eq!((m.label.as_str(), m.source_item_id), ("v1.37.4", Some(30)));
    assert_eq!(mirror_input(&index, 999).label, "");
}
