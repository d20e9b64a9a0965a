//! Display decisions of the pages and panels: the detail panel (command,
//! header, body, state icons), roster group labels and colours, the age badge
//! of unreviewed pull requests, note links, and the Team Stats controls.
use vstd::prelude::*;
use crate::json::{json_as_bool, json_as_i64, json_as_str, json_get, Json};
use crate::text::{decimal, lowercase, push_decimal, push_str, string_from, to_lowercase};
use crate::types::Note;
use crate::war_room::str_eq;

verus! {

broadcast use vstd::string::group_string_axioms;

// ---------------------------------------------------------------------------
// Detail panel
// ---------------------------------------------------------------------------

/// The string member `key` of `v`, or the empty string.
pub open spec fn str_member(v: Json, key: Seq<char>) -> Seq<char> {
    match json_get(v, key) {
        Some(x) => match json_as_str(x) {
            Some(s) => s,
            None => Seq::empty(),
        },
        None => Seq::empty(),
    }
}

/// The string member `key` of `v`, or `""`.
pub fn s(v: &Json, key: &str) -> (r: String)
    ensures
        r@ == str_member(*v, key@),
{
    match v.get(key) {
        Some(x) => match x.as_str() {
            Some(t) => t.clone(),
            None => String::new(),
        },
        None => String::new(),
    }
}

/// A person as the detail panel shows them: login and display name.
#[derive(Clone, PartialEq, Debug)]
pub struct Person {
    pub login: String,
    pub name: String,
}

/// A person from a GitHub user object: the name falls back to the login.
pub fn person(v: &Json) -> (p: Person)
    ensures
        p.login@ == str_member(*v, "login"@),
        p.name@ == (if str_member(*v, "name"@).len() == 0 {
            str_member(*v, "login"@)
        } else {
            str_member(*v, "name"@)
        }),
{
    let login = s(v, "login");
    let n = s(v, "name");
    let name = if n.as_str().is_empty() {
        s(v, "login")
    } else {
        n
    };
    Person { login, name }
}

/// The icon beside an issue's or pull request's state.
#[derive(Clone, Copy, PartialEq, Eq, Debug, Structural)]
pub enum StateIcon {
    Closed,
    Merged,
    PullRequest,
    OpenIssue,
}

pub open spec fn state_icon_spec(state: Seq<char>, is_pr: bool) -> StateIcon {
    if state == "closed"@ {
        StateIcon::Closed
    } else if state == "merged"@ {
        StateIcon::Merged
    } else if state == "draft"@ {
        StateIcon::PullRequest
    } else if is_pr {
        StateIcon::PullRequest
    } else {
        StateIcon::OpenIssue
    }
}

/// Closed: a cross; merged: a merge; draft or any other pull request: a
/// pull request; any other issue: a dot in a circle.
pub fn state_icon(state: &str, is_pr: bool) -> (r: StateIcon)
    ensures
        r == state_icon_spec(state@, is_pr),
{
    if str_eq(state, "closed") {
        StateIcon::Closed
    } else if str_eq(state, "merged") {
        StateIcon::Merged
    } else if str_eq(state, "draft") {
        StateIcon::PullRequest
    } else if is_pr {
        StateIcon::PullRequest
    } else {
        StateIcon::OpenIssue
    }
}

/// The `gh` command that loads an issue or pull request into the detail
/// panel: pull requests also ask for draft state, branches and review
/// decision.
pub open spec fn detail_command_spec(ref_type: Seq<char>, number: i64, repo: Seq<char>) -> Seq<char> {
    ref_type + " view "@ + decimal(number as int) + " --repo "@ + repo + " --json "@ + (if ref_type
        == "pr"@ {
        "number,title,state,body,author,assignees,labels,milestone,comments,url,createdAt,updatedAt,isDraft,headRefName,baseRefName,reviewDecision"@
    } else {
        "number,title,state,body,author,assignees,labels,milestone,comments,url,createdAt,updatedAt"@
    })
}

pub fn detail_command(ref_type: &str, number: i64, repo: &str) -> (r: String)
    ensures
        r@ == detail_command_spec(ref_type@, number, repo@),
{
    let mut c = string_from(ref_type);
    push_str(&mut c, " view ");
    push_decimal(&mut c, number);
    push_str(&mut c, " --repo ");
    push_str(&mut c, repo);
    push_str(&mut c, " --json ");
    if str_eq(ref_type, "pr") {
        push_str(
            &mut c,
            "number,title,state,body,author,assignees,labels,milestone,comments,url,createdAt,updatedAt,isDraft,headRefName,baseRefName,reviewDecision",
        );
    } else {
        push_str(
            &mut c,
            "number,title,state,body,author,assignees,labels,milestone,comments,url,createdAt,updatedAt",
        );
    }
    c
}

/// The avatar image of a login.
pub fn avatar_url(login: &str) -> (r: String)
    ensures
        r@ == "https://github.com/"@ + login@ + ".png?size=20"@,
{
    let mut u = string_from("https://github.com/");
    push_str(&mut u, login);
    push_str(&mut u, ".png?size=20");
    u
}

/// The state shown in the header: `draft` for a draft pull request, else
/// the lowercase state.
pub open spec fn display_state_spec(item: Json, is_pr: bool) -> Seq<char> {
    let draft = is_pr && match json_get(item, "isDraft"@) {
        Some(d) => json_as_bool(d) == Some(true),
        None => false,
    };
    if draft {
        "draft"@
    } else {
        lowercase(str_member(item, "state"@))
    }
}

pub open spec fn badge_class_spec(state: Seq<char>, is_pr: bool) -> Seq<char> {
    if state == "closed"@ {
        if is_pr {
            "badge badge-closed-pr"@
        } else {
            "badge badge-closed"@
        }
    } else if state == "merged"@ {
        "badge badge-merged"@
    } else if state == "draft"@ {
        "badge badge-draft"@
    } else {
        "badge badge-open"@
    }
}

/// The badge of a state; open and unknown states read as open.
pub fn badge_class(state: &str, is_pr: bool) -> (r: &'static str)
    ensures
        r@ == badge_class_spec(state@, is_pr),
{
    if str_eq(state, "closed") {
        if is_pr {
            "badge badge-closed-pr"
        } else {
            "badge badge-closed"
        }
    } else if str_eq(state, "merged") {
        "badge badge-merged"
    } else if str_eq(state, "draft") {
        "badge badge-draft"
    } else {
        "badge badge-open"
    }
}

/// What the detail panel header shows of an issue or pull request.
#[derive(Clone, PartialEq, Debug)]
pub struct DetailHeader {
    pub number: i64,
    pub title: String,
    pub state: String,
    pub badge_class: String,
    pub author: Person,
    pub assignees: Vec<Person>,
    pub labels: Vec<String>,
    pub milestone: Option<String>,
    pub head_ref: String,
    pub base_ref: String,
}

pub open spec fn array_members(v: Option<Json>) -> Seq<Json> {
    match v {
        Some(Json::Array { items, .. }) => items@,
        _ => Seq::empty(),
    }
}

pub open spec fn person_login(v: Json) -> Seq<char> {
    str_member(v, "login"@)
}

pub open spec fn person_name(v: Json) -> Seq<char> {
    if str_member(v, "name"@).len() == 0 {
        str_member(v, "login"@)
    } else {
        str_member(v, "name"@)
    }
}

fn members(v: Option<&Json>) -> (r: Vec<Person>)
    ensures
        r@.len() == array_members(
            match v {
                Some(x) => Some(*x),
                None => None,
            },
        ).len(),
        forall|i: int|
            #![trigger r@[i]]
            0 <= i < r@.len() ==> r@[i].login@ == person_login(
                array_members(
                    match v {
                        Some(x) => Some(*x),
                        None => None,
                    },
                )[i],
            ) && r@[i].name@ == person_name(
                array_members(
                    match v {
                        Some(x) => Some(*x),
                        None => None,
                    },
                )[i],
            ),
{
    let mut r: Vec<Person> = Vec::new();
    if let Some(Json::Array { items, .. }) = v {
        let mut i: usize = 0;
        while i < items.len()
            invariant
                i <= items@.len(),
                r@.len() == i,
                forall|j: int|
                    #![trigger r@[j]]
                    0 <= j < i ==> r@[j].login@ == person_login(items@[j]) && r@[j].name@
                        == person_name(items@[j]),
            decreases items@.len() - i,
        {
            r.push(person(&items[i]));
            i = i + 1;
        }
    }
    r
}

/// The header of the detail panel for the loaded `item`.
pub fn detail_header(item: &Json, is_pr: bool) -> (h: DetailHeader)
    ensures
        h.number == (match json_get(*item, "number"@) {
            Some(n) => match json_as_i64(n) {
                Some(x) => x,
                None => 0,
            },
            None => 0,
        }),
        h.title@ == str_member(*item, "title"@),
        h.state@ == display_state_spec(*item, is_pr),
        h.badge_class@ == badge_class_spec(display_state_spec(*item, is_pr), is_pr),
        h.author.login@ == (match json_get(*item, "author"@) {
            Some(a) => person_login(a),
            None => Seq::empty(),
        }),
        h.author.name@ == (match json_get(*item, "author"@) {
            Some(a) => person_name(a),
            None => Seq::empty(),
        }),
        h.assignees@.len() == array_members(json_get(*item, "assignees"@)).len(),
        forall|i: int|
            #![trigger h.assignees@[i]]
            0 <= i < h.assignees@.len() ==> h.assignees@[i].login@ == person_login(
                array_members(json_get(*item, "assignees"@))[i],
            ) && h.assignees@[i].name@ == person_name(
                array_members(json_get(*item, "assignees"@))[i],
            ),
        h.labels@.len() == array_members(json_get(*item, "labels"@)).len(),
        forall|i: int|
            #![trigger h.labels@[i]]
            0 <= i < h.labels@.len() ==> h.labels@[i]@ == str_member(
                array_members(json_get(*item, "labels"@))[i],
                "name"@,
            ),
        match h.milestone {
            Some(m) => json_get(*item, "milestone"@) matches Some(ms) && json_get(ms, "title"@)
                matches Some(t) && json_as_str(t) == Some(m@),
            None => !(json_get(*item, "milestone"@) matches Some(ms) && json_get(ms, "title"@)
                matches Some(t) && json_as_str(t) is Some),
        },
        h.head_ref@ == str_member(*item, "headRefName"@),
        h.base_ref@ == str_member(*item, "baseRefName"@),
{
    let number: i64 = match item.get("number") {
        Some(n) => match n.as_i64() {
            Some(x) => x,
            None => 0,
        },
        None => 0,
    };
    let is_draft = is_pr && match item.get("isDraft") {
        Some(d) => d.as_bool() == Some(true),
        None => false,
    };
    let state = if is_draft {
        string_from("draft")
    } else {
        let raw = s(item, "state");
        to_lowercase(raw.as_str())
    };
    let badge = string_from(badge_class(state.as_str(), is_pr));
    let author = match item.get("author") {
        Some(a) => person(a),
        None => Person { login: String::new(), name: String::new() },
    };
    let assignees = members(item.get("assignees"));
    let mut labels: Vec<String> = Vec::new();
    if let Some(Json::Array { items, .. }) = item.get("labels") {
        let mut i: usize = 0;
        while i < items.len()
            invariant
                i <= items@.len(),
                labels@.len() == i,
                forall|j: int|
                    #![trigger labels@[j]]
                    0 <= j < i ==> labels@[j]@ == str_member(items@[j], "name"@),
            decreases items@.len() - i,
        {
            labels.push(s(&items[i], "name"));
            i = i + 1;
        }
    }
    let milestone = match item.get("milestone") {
        Some(m) => match m.get("title") {
            Some(t) => match t.as_str() {
                Some(x) => Some(x.clone()),
                None => None,
            },
            None => None,
        },
        None => None,
    };
    DetailHeader {
        number,
        title: s(item, "title"),
        state,
        badge_class: badge,
        author,
        assignees,
        labels,
        milestone,
        head_ref: s(item, "headRefName"),
        base_ref: s(item, "baseRefName"),
    }
}

/// A comment as the detail panel shows it.
#[derive(Clone, PartialEq, Debug)]
pub struct Comment {
    pub author: String,
    pub body: String,
    pub created_at: String,
}

pub open spec fn comment_author(c: Json) -> Seq<char> {
    match json_get(c, "author"@) {
        Some(a) => str_member(a, "login"@),
        None => Seq::empty(),
    }
}

/// The body of the detail panel: the description's author, text and date,
/// how many comments there are, and the last one.
#[derive(Clone, PartialEq, Debug)]
pub struct DetailBody {
    pub author_login: String,
    pub body: String,
    pub created_at: String,
    pub comment_count: usize,
    pub last_comment: Option<Comment>,
}

fn comment_of(c: &Json) -> (r: Comment)
    ensures
        r.author@ == comment_author(*c),
        r.body@ == str_member(*c, "body"@),
        r.created_at@ == str_member(*c, "createdAt"@),
{
    let author = match c.get("author") {
        Some(a) => s(a, "login"),
        None => String::new(),
    };
    Comment { author, body: s(c, "body"), created_at: s(c, "createdAt") }
}

/// The body of the detail panel for the loaded `item`.
pub fn detail_body(item: &Json) -> (b: DetailBody)
    ensures
        b.author_login@ == (match json_get(*item, "author"@) {
            Some(a) => person_login(a),
            None => Seq::empty(),
        }),
        b.body@ == str_member(*item, "body"@),
        b.created_at@ == str_member(*item, "createdAt"@),
        b.comment_count == array_members(json_get(*item, "comments"@)).len(),
        match b.last_comment {
            Some(c) => {
                let cs = array_members(json_get(*item, "comments"@));
                &&& cs.len() > 0
                &&& c.author@ == comment_author(cs.last())
                &&& c.body@ == str_member(cs.last(), "body"@)
                &&& c.created_at@ == str_member(cs.last(), "createdAt"@)
            },
            None => array_members(json_get(*item, "comments"@)).len() == 0,
        },
{
    let author_login = match item.get("author") {
        Some(a) => person(a).login,
        None => String::new(),
    };
    let (count, last) = match item.get("comments") {
        Some(Json::Array { items, .. }) => {
            if items.len() > 0 {
                (items.len(), Some(comment_of(&items[items.len() - 1])))
            } else {
                (0, None)
            }
        },
        _ => (0, None),
    };
    DetailBody {
        author_login,
        body: s(item, "body"),
        created_at: s(item, "createdAt"),
        comment_count: count,
        last_comment: last,
    }
}

// ---------------------------------------------------------------------------
// Roster groups
// ---------------------------------------------------------------------------

pub open spec fn group_label_spec(group: Seq<char>) -> Seq<char> {
    if group == "pe"@ {
        "PE"@
    } else if group == "solo"@ {
        "Solo"@
    } else if group == "maintainer"@ {
        "Maintainer"@
    } else if group == "bot"@ {
        "Bot"@
    } else {
        "Team"@
    }
}

/// The label of a roster group; unknown groups read as "Team".
pub fn group_label(group: &str) -> (r: &'static str)
    ensures
        r@ == group_label_spec(group@),
{
    if str_eq(group, "pe") {
        "PE"
    } else if str_eq(group, "solo") {
        "Solo"
    } else if str_eq(group, "maintainer") {
        "Maintainer"
    } else if str_eq(group, "bot") {
        "Bot"
    } else {
        "Team"
    }
}

pub open spec fn group_color_spec(group: Seq<char>) -> Seq<char> {
    if group == "team"@ {
        "#3fb950"@
    } else if group == "pe"@ {
        "#db61a2"@
    } else if group == "solo"@ {
        "#a371f7"@
    } else if group == "maintainer"@ {
        "#58a6ff"@
    } else if group == "bot"@ {
        "#8b949e"@
    } else {
        "#e3b341"@
    }
}

/// The scoreboard colour of a roster group; the community colour otherwise.
pub fn group_color(group: &str) -> (r: &'static str)
    ensures
        r@ == group_color_spec(group@),
{
    if str_eq(group, "team") {
        "#3fb950"
    } else if str_eq(group, "pe") {
        "#db61a2"
    } else if str_eq(group, "solo") {
        "#a371f7"
    } else if str_eq(group, "maintainer") {
        "#58a6ff"
    } else if str_eq(group, "bot") {
        "#8b949e"
    } else {
        "#e3b341"
    }
}

/// The age badge of an unreviewed pull request: over 30 days is bad, over 7
/// a warning, otherwise fresh.
pub fn age_class(days: i64) -> (r: &'static str)
    ensures
        r@ == (if days > 30 {
            "ts-age ts-age-bad"@
        } else if days > 7 {
            "ts-age ts-age-warn"@
        } else {
            "ts-age ts-age-fresh"@
        }),
{
    if days > 30 {
        "ts-age ts-age-bad"
    } else if days > 7 {
        "ts-age ts-age-warn"
    } else {
        "ts-age ts-age-fresh"
    }
}

// ---------------------------------------------------------------------------
// Notes
// ---------------------------------------------------------------------------

pub open spec fn note_url_spec(repo: Option<Seq<char>>, ref_type: Option<Seq<char>>, number: Option<
    i64,
>) -> Option<Seq<char>> {
    match (repo, number) {
        (Some(r), Some(n)) => Some(
            "https://github.com/"@ + r + "/"@ + (if ref_type == Some("pr"@) {
                "pull"@
            } else {
                "issues"@
            }) + "/"@ + decimal(n as int),
        ),
        _ => None,
    }
}

/// The GitHub page a note refers to: a pull request for `pr` notes, an
/// issue otherwise; `None` without a repository or a number.
pub fn note_github_url(note: &Note) -> (r: Option<String>)
    ensures
        match r {
            Some(u) => note_url_spec(
                match note.repo {
                    Some(x) => Some(x@),
                    None => None,
                },
                match note.ref_type {
                    Some(x) => Some(x@),
                    None => None,
                },
                note.ref_number,
            ) == Some(u@),
            None => note_url_spec(
                match note.repo {
                    Some(x) => Some(x@),
                    None => None,
                },
                match note.ref_type {
                    Some(x) => Some(x@),
                    None => None,
                },
                note.ref_number,
            ) is None,
        },
{
    let repo = match &note.repo {
        Some(r) => r,
        None => return None,
    };
    let num = match note.ref_number {
        Some(n) => n,
        None => return None,
    };
    let is_pr = match &note.ref_type {
        Some(t) => str_eq(t.as_str(), "pr"),
        None => false,
    };
    let mut u = string_from("https://github.com/");
    push_str(&mut u, repo.as_str());
    push_str(&mut u, "/");
    if is_pr {
        push_str(&mut u, "pull");
    } else {
        push_str(&mut u, "issues");
    }
    push_str(&mut u, "/");
    push_decimal(&mut u, num);
    Some(u)
}

// ---------------------------------------------------------------------------
// Team Stats controls
// ---------------------------------------------------------------------------

/// The label of the repo picker: all repos, the one selected repo by name,
/// or how many are selected (`selected` in set order).
pub open spec fn repo_picker_label_spec(selected: Seq<Seq<char>>) -> Seq<char> {
    if selected.len() == 0 {
        "All repos"@
    } else if selected.len() == 1 {
        crate::gh_query::after_last_slash(selected[0])
    } else {
        decimal(selected.len() as int) + " repos"@
    }
}

pub fn repo_picker_label(selected: &Vec<String>) -> (r: String)
    ensures
        r@ == repo_picker_label_spec(selected@.map_values(|s: String| s@)),
{
    if selected.len() == 0 {
        string_from("All repos")
    } else if selected.len() == 1 {
        let cs = crate::text::chars_of(selected[0].as_str());
        crate::text::string_of(crate::gh_query::after_last_slash_exec(cs.as_slice()).as_slice())
    } else {
        let mut s = String::new();
        crate::text::push_decimal_u64(&mut s, selected.len() as u64);
        push_str(&mut s, " repos");
        s
    }
}

/// The worklist order after pressing its toggle: oldest first becomes newest
/// first, anything else becomes oldest first.
pub fn next_worklist_sort(current: &str) -> (r: &'static str)
    ensures
        r@ == (if current@ == "oldest"@ {
            "newest"@
        } else {
            "oldest"@
        }),
{
    if str_eq(current, "oldest") {
        "newest"
    } else {
        "oldest"
    }
}

// ---------------------------------------------------------------------------
// Scoreboard totals
// ---------------------------------------------------------------------------

/// One person's integer counts on the Team Stats scoreboard.
#[derive(Clone, Copy, Debug, PartialEq)]
pub struct ActivityCounts {
    pub prs_opened: i64,
    pub prs_draft: i64,
    pub prs_merged: i64,
    pub prs_reviewed: i64,
    pub approvals: i64,
}

/// The column sums of `rows`.
pub open spec fn counts_sum(rows: Seq<ActivityCounts>) -> (int, int, int, int, int)
    decreases rows.len(),
{
    if rows.len() == 0 {
        (0, 0, 0, 0, 0)
    } else {
        let s = counts_sum(rows.drop_last());
        let r = rows.last();
        (
            s.0 + r.prs_opened,
            s.1 + r.prs_draft,
            s.2 + r.prs_merged,
            s.3 + r.prs_reviewed,
            s.4 + r.approvals,
        )
    }
}

/// Every running column sum stays inside the `i64` range.
pub open spec fn counts_sum_fits(rows: Seq<ActivityCounts>) -> bool {
    forall|k: int|
        0 <= k <= rows.len() ==> {
            let s = #[trigger] counts_sum(rows.take(k));
            &&& i64::MIN <= s.0 <= i64::MAX
            &&& i64::MIN <= s.1 <= i64::MAX
            &&& i64::MIN <= s.2 <= i64::MAX
            &&& i64::MIN <= s.3 <= i64::MAX
            &&& i64::MIN <= s.4 <= i64::MAX
        }
}

/// The totals row of the scoreboard: each column summed over the people.
pub fn scoreboard_totals(rows: &Vec<ActivityCounts>) -> (t: ActivityCounts)
    requires
        counts_sum_fits(rows@),
    ensures
        (t.prs_opened as int, t.prs_draft as int, t.prs_merged as int, t.prs_reviewed as int, t.approvals
            as int) == counts_sum(rows@),
{
    let mut t = ActivityCounts { prs_opened: 0, prs_draft: 0, prs_merged: 0, prs_reviewed: 0, approvals: 0 };
    let mut i: usize = 0;
    assert(rows@.take(0) =~= Seq::<ActivityCounts>::empty());
    while i < rows.len()
        invariant
            i <= rows@.len(),
            counts_sum_fits(rows@),
            (t.prs_opened as int, t.prs_draft as int, t.prs_merged as int, t.prs_reviewed as int,
                t.approvals as int) == counts_sum(rows@.take(i as int)),
        decreases rows@.len() - i,
    {
        assert(rows@.take(i + 1).drop_last() =~= rows@.take(i as int));
        assert(rows@.take(i + 1).last() == rows@[i as int]);
        let ghost next = counts_sum(rows@.take(i + 1));
        assert(i64::MIN <= next.0 <= i64::MAX && i64::MIN <= next.1 <= i64::MAX && i64::MIN
            <= next.2 <= i64::MAX && i64::MIN <= next.3 <= i64::MAX && i64::MIN <= next.4
            <= i64::MAX);
        let r = rows[i];
        t = ActivityCounts {
            prs_opened: t.prs_opened + r.prs_opened,
            prs_draft: t.prs_draft + r.prs_draft,
            prs_merged: t.prs_merged + r.prs_merged,
            prs_reviewed: t.prs_reviewed + r.prs_reviewed,
            approvals: t.approvals + r.approvals,
        };
        i = i + 1;
    }
    assert(rows@.take(rows@.len() as int) =~= rows@);
    t
}

} // verus!
