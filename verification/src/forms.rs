//! What the dialogs and inline forms submit: trimmed fields, empty fields
//! left out, numbers read from text, the commands of a query tile, names of
//! new and renamed things, and registry picks.
use vstd::prelude::*;
use crate::gh_query::strings_view;
use crate::json::{json_as_str, json_get, Json};
use crate::text::{
    chars_of, decimal, parse_i64, parse_i64_chars, parse_u64, parse_u64_chars, push_decimal, push_str,
    string_from, string_of, trim, trim_chars,
};
use crate::types::{
    ChecklistItem, CreateCalendarComponentInput, CreateGroupInput, CreateItemInput, CreateNoteInput,
    CreateRepoInput, Repo,
};

verus! {

broadcast use vstd::string::group_string_axioms;

/// `s.trim().to_string()`.
pub fn trimmed(s: &str) -> (r: String)
    ensures
        r@ == trim(s@),
{
    let cs = chars_of(s);
    let t = trim_chars(cs.as_slice());
    string_of(t.as_slice())
}

/// A text field that is left out when empty.
pub open spec fn nonempty(t: Seq<char>) -> Option<Seq<char>> {
    if t.len() == 0 {
        None
    } else {
        Some(t)
    }
}

pub open spec fn opt_view(o: Option<String>) -> Option<Seq<char>> {
    match o {
        Some(s) => Some(s@),
        None => None,
    }
}

fn nonempty_exec(t: String) -> (r: Option<String>)
    ensures
        opt_view(r) == nonempty(t@),
{
    if t.as_str().is_empty() {
        None
    } else {
        Some(t)
    }
}

/// `s.trim().parse::<i64>().ok()`.
pub fn parse_trimmed_i64(s: &str) -> (r: Option<i64>)
    ensures
        r == parse_i64(trim(s@)),
{
    let cs = chars_of(s);
    let t = trim_chars(cs.as_slice());
    parse_i64_chars(t.as_slice())
}

/// The commands of a query tile form: each trimmed, empty ones dropped.
pub open spec fn filled_commands_spec(cmds: Seq<Seq<char>>) -> Seq<Seq<char>>
    decreases cmds.len(),
{
    if cmds.len() == 0 {
        Seq::empty()
    } else {
        let rest = filled_commands_spec(cmds.drop_last());
        let t = trim(cmds.last());
        if t.len() > 0 {
            rest.push(t)
        } else {
            rest
        }
    }
}

/// The trimmed, non-empty commands of a query tile form.
pub fn filled_commands(commands: &Vec<String>) -> (r: Vec<String>)
    ensures
        strings_view(r@) == filled_commands_spec(strings_view(commands@)),
{
    let ghost cv = strings_view(commands@);
    let mut r: Vec<String> = Vec::new();
    let mut i: usize = 0;
    while i < commands.len()
        invariant
            i <= commands@.len(),
            cv == strings_view(commands@),
            strings_view(r@) == filled_commands_spec(cv.take(i as int)),
        decreases commands@.len() - i,
    {
        assert(cv.take(i + 1).drop_last() == cv.take(i as int));
        assert(cv.take(i + 1).last() == commands@[i as int]@);
        let t = trimmed(commands[i].as_str());
        if !t.as_str().is_empty() {
            let ghost before = r@;
            r.push(t);
            assert(strings_view(r@) =~= strings_view(before).push(trim(commands@[i as int]@)));
        }
        i = i + 1;
    }
    assert(cv.take(commands@.len() as int) == cv);
    r
}

/// The title of a new tile: the trimmed title, or `fallback` when blank.
pub fn tile_title(title: &str, fallback: &str) -> (r: String)
    ensures
        r@ == (if trim(title@).len() == 0 {
            fallback@
        } else {
            trim(title@)
        }),
{
    let t = trimmed(title);
    if t.as_str().is_empty() {
        string_from(fallback)
    } else {
        t
    }
}

/// The text a JSON field of a form is read from: `{}` when blank.
pub fn json_field_text(s: &str) -> (r: String)
    ensures
        r@ == (if trim(s@).len() == 0 {
            "{}"@
        } else {
            s@
        }),
{
    let t = trimmed(s);
    if t.as_str().is_empty() {
        string_from("{}")
    } else {
        string_from(s)
    }
}

/// The error shown when a JSON field holds something other than an object.
pub fn not_object_error(what: &str) -> (r: String)
    ensures
        r@ == what@ + " must be a JSON object"@,
{
    let mut r = string_from(what);
    crate::text::push_str(&mut r, " must be a JSON object");
    r
}

/// The commands an edit form starts with: the items of a non-empty
/// `commands` array (non-strings as empty), else the `command`, else `""`.
pub open spec fn edit_commands_spec(cfg: Json) -> Seq<Seq<char>> {
    match json_get(cfg, "commands"@) {
        Some(Json::Array { items, .. }) if items@.len() > 0 => items@.map_values(
            |v: Json|
                match json_as_str(v) {
                    Some(s) => s,
                    None => Seq::empty(),
                },
        ),
        _ => seq![
            match json_get(cfg, "command"@) {
                Some(c) => match json_as_str(c) {
                    Some(s) => s,
                    None => Seq::empty(),
                },
                None => Seq::empty(),
            },
        ],
    }
}

/// The commands of a tile's config, for its edit form.
pub fn edit_commands(cfg: &Json) -> (r: Vec<String>)
    ensures
        strings_view(r@) == edit_commands_spec(*cfg),
{
    if let Some(Json::Array { items, .. }) = cfg.get("commands") {
        if items.len() > 0 {
            let mut r: Vec<String> = Vec::new();
            let mut i: usize = 0;
            while i < items.len()
                invariant
                    i <= items@.len(),
                    r@.len() == i,
                    forall|j: int|
                        0 <= j < i ==> (#[trigger] r@[j])@ == match json_as_str(items@[j]) {
                            Some(s) => s,
                            None => Seq::<char>::empty(),
                        },
                decreases items@.len() - i,
            {
                let s = match items[i].as_str() {
                    Some(s) => s.clone(),
                    None => String::new(),
                };
                r.push(s);
                i = i + 1;
            }
            assert(strings_view(r@) =~= edit_commands_spec(*cfg));
            return r;
        }
    }
    let one = match cfg.get("command") {
        Some(c) => match c.as_str() {
            Some(s) => s.clone(),
            None => String::new(),
        },
        None => String::new(),
    };
    let mut r: Vec<String> = Vec::new();
    r.push(one);
    assert(strings_view(r@) =~= edit_commands_spec(*cfg));
    r
}

/// The note a note dialog submits: the title and body as typed, repository
/// and kind trimmed and left out when empty, the number read from the
/// trimmed text when it is one.
pub fn note_input(title: String, body: String, repo: &str, ref_type: &str, ref_number: &str) -> (r:
    CreateNoteInput)
    ensures
        r.title == title,
        r.body == Some(body),
        opt_view(r.repo) == nonempty(trim(repo@)),
        opt_view(r.ref_type) == nonempty(trim(ref_type@)),
        r.ref_number == parse_i64(trim(ref_number@)),
        r.tags is None,
{
    CreateNoteInput {
        title,
        body: Some(body),
        repo: nonempty_exec(trimmed(repo)),
        ref_type: nonempty_exec(trimmed(ref_type)),
        ref_number: parse_trimmed_i64(ref_number),
        tags: None,
    }
}

/// The item a war-room item dialog submits, or `None` when the trimmed
/// label is empty (nothing is submitted).
pub fn item_input(
    label: &str,
    ref_type: &str,
    ref_number: &str,
    note: String,
    stage: String,
    checklist: Vec<ChecklistItem>,
    depends_on: &str,
) -> (r: Option<CreateItemInput>)
    ensures
        trim(label@).len() == 0 <==> r is None,
        r matches Some(i) ==> {
            &&& i.label@ == trim(label@)
            &&& opt_view(i.ref_type) == nonempty(trim(ref_type@))
            &&& i.ref_number == parse_i64(trim(ref_number@))
            &&& i.note == Some(note)
            &&& i.stage == Some(stage)
            &&& i.checklist == Some(checklist)
            &&& i.depends_on == parse_i64(trim(depends_on@))
            &&& i.source_item_id is None
        },
{
    let l = trimmed(label);
    if l.as_str().is_empty() {
        return None;
    }
    Some(
        CreateItemInput {
            label: l,
            ref_type: nonempty_exec(trimmed(ref_type)),
            ref_number: parse_trimmed_i64(ref_number),
            note: Some(note),
            stage: Some(stage),
            checklist: Some(checklist),
            depends_on: parse_trimmed_i64(depends_on),
            source_item_id: None,
        },
    )
}

/// Adds a checklist step from the text typed in, trimmed; blank text adds
/// nothing.
pub fn add_step(checklist: &mut Vec<ChecklistItem>, text: &str)
    ensures
        trim(text@).len() == 0 ==> final(checklist)@ == old(checklist)@,
        trim(text@).len() > 0 ==> final(checklist)@.len() == old(checklist)@.len() + 1
            && final(checklist)@.drop_last() == old(checklist)@ && final(checklist)@.last().text@
            == trim(text@) && !final(checklist)@.last().done,
{
    let t = trimmed(text);
    if t.as_str().is_empty() {
        return;
    }
    checklist.push(ChecklistItem { text: t, done: false });
    assert(checklist@.drop_last() =~= old(checklist)@);
}

/// The name a "new dashboard / war room / calendar" form submits: trimmed,
/// or nothing when blank.
pub fn created_name(name: &str) -> (r: Option<String>)
    ensures
        opt_view(r) == nonempty(trim(name@)),
{
    nonempty_exec(trimmed(name))
}

/// The new name a rename field commits: the trimmed value, when it is
/// non-empty and differs from the current name; otherwise nothing is sent.
pub fn renamed(value: &str, current: &str) -> (r: Option<String>)
    ensures
        opt_view(r) == (if trim(value@).len() > 0 && trim(value@) != current@ {
            Some(trim(value@))
        } else {
            None
        }),
{
    let t = trimmed(value);
    if t.as_str().is_empty() || crate::war_room::str_eq(t.as_str(), current) {
        None
    } else {
        Some(t)
    }
}

/// The group a war-room group dialog submits, or `None` when the trimmed
/// name is empty.
pub fn group_input(name: &str, repo_id: &str, repo: &str) -> (r: Option<CreateGroupInput>)
    ensures
        trim(name@).len() == 0 <==> r is None,
        r matches Some(g) ==> g.name@ == trim(name@) && g.repo_id == parse_i64(trim(repo_id@))
            && opt_view(g.repo) == nonempty(trim(repo@)),
{
    let n = trimmed(name);
    if n.as_str().is_empty() {
        return None;
    }
    Some(
        CreateGroupInput {
            name: n,
            repo_id: parse_trimmed_i64(repo_id),
            repo: nonempty_exec(trimmed(repo)),
        },
    )
}

/// The repo a registry form adds, or `None` unless both trimmed fields are
/// non-empty.
pub fn repo_input(name: &str, owner_repo: &str) -> (r: Option<CreateRepoInput>)
    ensures
        (trim(name@).len() == 0 || trim(owner_repo@).len() == 0) <==> r is None,
        r matches Some(c) ==> c.name@ == trim(name@) && c.owner_repo@ == trim(owner_repo@),
{
    let n = trimmed(name);
    let o = trimmed(owner_repo);
    if n.as_str().is_empty() || o.as_str().is_empty() {
        None
    } else {
        Some(CreateRepoInput { name: n, owner_repo: o })
    }
}

/// The component a calendar component dialog submits, or `None` when the
/// trimmed name is empty; a blank short name is left out.
pub fn component_input(name: &str, short_name: &str, color: String) -> (r: Option<
    CreateCalendarComponentInput,
>)
    ensures
        trim(name@).len() == 0 <==> r is None,
        r matches Some(c) ==> c.name@ == trim(name@) && opt_view(c.short_name) == nonempty(
            trim(short_name@),
        ) && c.color == Some(color),
{
    let n = trimmed(name);
    if n.as_str().is_empty() {
        return None;
    }
    Some(
        CreateCalendarComponentInput {
            name: n,
            short_name: nonempty_exec(trimmed(short_name)),
            color: Some(color),
        },
    )
}

/// The release list limit after typing `text`: a number from 1 to 20 is
/// taken, anything else leaves `current`.
pub fn limit_input(text: &str, current: u32) -> (r: u32)
    ensures
        r == (match parse_u64(text@) {
            Some(n) => if 1 <= n <= 20 {
                n as u32
            } else {
                current
            },
            None => current,
        }),
{
    let cs = chars_of(text);
    match parse_u64_chars(cs.as_slice()) {
        Some(n) => if 1 <= n && n <= 20 {
            n as u32
        } else {
            current
        },
        None => current,
    }
}

/// The command that lists a watched repository's releases.
pub fn release_list_command(owner_repo: &str, limit: i64) -> (r: String)
    ensures
        r@ == "release list --repo "@ + owner_repo@ + " --limit "@ + decimal(limit as int)
            + " --json tagName"@,
{
    let mut c = string_from("release list --repo ");
    push_str(&mut c, owner_repo);
    push_str(&mut c, " --limit ");
    push_decimal(&mut c, limit);
    push_str(&mut c, " --json tagName");
    c
}

/// The first repo of the registry with this id.
pub open spec fn first_repo(repos: Seq<Repo>, id: i64) -> Option<Repo>
    decreases repos.len(),
{
    if repos.len() == 0 {
        None
    } else if repos[0].id == id {
        Some(repos[0])
    } else {
        first_repo(repos.drop_first(), id)
    }
}

/// Picking a registry repo in the group dialog: the repo's name (only when
/// the name field is blank) and its `owner/repo`; `None` when the choice is
/// no known repo.
pub fn repo_pick(repos: &Vec<Repo>, choice: &str, current_name: &str) -> (r: Option<
    (Option<String>, String),
>)
    ensures
        match parse_i64(choice@) {
            Some(id) => match first_repo(repos@, id) {
                Some(rp) => match r {
                    Some(pick) => {
                        &&& pick.1@ == rp.owner_repo@
                        &&& opt_view(pick.0) == (if trim(current_name@).len() == 0 {
                            Some(rp.name@)
                        } else {
                            None
                        })
                    },
                    None => false,
                },
                None => r is None,
            },
            None => r is None,
        },
{
    let cs = chars_of(choice);
    let id = match parse_i64_chars(cs.as_slice()) {
        Some(id) => id,
        None => return None,
    };
    let mut i: usize = 0;
    assert(repos@.skip(0) == repos@);
    while i < repos.len()
        invariant
            i <= repos@.len(),
            parse_i64(choice@) == Some(id),
            first_repo(repos@, id) == first_repo(repos@.skip(i as int), id),
        decreases repos@.len() - i,
    {
        assert(repos@.skip(i as int)[0] == repos@[i as int]);
        assert(repos@.skip(i as int).drop_first() == repos@.skip(i + 1));
        if repos[i].id == id {
            assert(first_repo(repos@.skip(i as int), id) == Some(repos@[i as int]));
            let blank = trimmed(current_name).as_str().is_empty();
            let n = if blank {
                Some(repos[i].name.clone())
            } else {
                None
            };
            return Some((n, repos[i].owner_repo.clone()));
        }
        i = i + 1;
    }
    None
}

} // verus!
