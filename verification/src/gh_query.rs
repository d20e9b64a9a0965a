//! GH Query tiles: expanding the configured commands, reading the repository,
//! number, key and kind of each result row, the tile's columns and hidden
//! columns, notes attached to rows, and stored per-tile preferences.
use vstd::prelude::*;
use crate::json::{json_as_bool, json_as_i64, json_as_str, json_get, Json};
use crate::text::{
    chars_of, contains_seq, decimal, find_chars_from, is_whitespace, is_ws, lowercase, matches_at,
    parse_i64, parse_i64_chars, push_chars, push_decimal, push_str, replace_all, replace_chars,
    slice_range, starts_with, string_from, string_of, to_lowercase,
};
use crate::field_extractors::{split_chars, split_on};
use crate::text_map::TextMap;
use crate::types::{GhQueryConfig, VarValue};

verus! {

broadcast use vstd::string::group_string_axioms;

// ---------------------------------------------------------------------------
// Command expansion
// ---------------------------------------------------------------------------

/// `{{name}}`.
pub open spec fn placeholder(name: Seq<char>) -> Seq<char> {
    "{{"@ + name + "}}"@
}

pub open spec fn strings_view(v: Seq<String>) -> Seq<Seq<char>> {
    v.map_values(|s: String| s@)
}

/// Every single-valued variable substituted into `cmd`, in key order.
pub open spec fn apply_single_vars(cmd: Seq<char>, vars: Seq<(String, VarValue)>) -> Seq<char>
    decreases vars.len(),
{
    if vars.len() == 0 {
        cmd
    } else {
        let acc = apply_single_vars(cmd, vars.drop_last());
        match vars.last().1 {
            VarValue::One(v) => replace_all(acc, placeholder(vars.last().0@), v@),
            VarValue::Many(_) => acc,
        }
    }
}

/// The first list-valued variable in key order.
pub open spec fn first_list_var(vars: Seq<(String, VarValue)>) -> Option<(Seq<char>, Seq<Seq<char>>)>
    decreases vars.len(),
{
    if vars.len() == 0 {
        None
    } else {
        match vars[0].1 {
            VarValue::Many(list) => Some((vars[0].0@, strings_view(list@))),
            VarValue::One(_) => first_list_var(vars.drop_first()),
        }
    }
}

/// One command expanded: one command per value of the first list variable,
/// or the command itself when there is none.
pub open spec fn expand_one(cmd: Seq<char>, vars: Seq<(String, VarValue)>) -> Seq<Seq<char>> {
    let e = apply_single_vars(cmd, vars);
    match first_list_var(vars) {
        Some((k, values)) => values.map_values(|v: Seq<char>| replace_all(e, placeholder(k), v)),
        None => seq![e],
    }
}

pub open spec fn expand_all(base: Seq<Seq<char>>, vars: Seq<(String, VarValue)>) -> Seq<Seq<char>>
    decreases base.len(),
{
    if base.len() == 0 {
        Seq::empty()
    } else {
        expand_all(base.drop_last(), vars) + expand_one(base.last(), vars)
    }
}

/// The configured command list: `commands` when present and non-empty,
/// otherwise the single `command`.
pub open spec fn base_commands(config: GhQueryConfig) -> Seq<Seq<char>> {
    match config.commands {
        Some(c) => if c@.len() > 0 {
            strings_view(c@)
        } else {
            seq![config.command@]
        },
        None => seq![config.command@],
    }
}

pub open spec fn config_vars(config: GhQueryConfig) -> Seq<(String, VarValue)> {
    match config.variables {
        Some(v) => v.entries(),
        None => Seq::empty(),
    }
}

pub open spec fn expand_commands_spec(config: GhQueryConfig) -> Seq<Seq<char>> {
    expand_all(base_commands(config), config_vars(config))
}

/// How many commands one configured command expands to: one per value of
/// the list variable, or one when there is none.
pub open spec fn runs_per_command(vars: Seq<(String, VarValue)>) -> nat {
    match first_list_var(vars) {
        Some((_, values)) => values.len(),
        None => 1,
    }
}

proof fn lemma_expand_all_len(base: Seq<Seq<char>>, vars: Seq<(String, VarValue)>)
    ensures
        expand_all(base, vars).len() == base.len() * runs_per_command(vars),
    decreases base.len(),
{
    if base.len() > 0 {
        lemma_expand_all_len(base.drop_last(), vars);
        let n = base.len() as int;
        let r = runs_per_command(vars) as int;
        assert(expand_one(base.last(), vars).len() == r);
        assert((n - 1) * r + r == n * r) by (nonlinear_arith);
    }
}

/// Every configured command is run once per value of the (first) list
/// variable, or once when no variable holds a list.
pub proof fn lemma_expand_count(config: GhQueryConfig)
    ensures
        expand_commands_spec(config).len() == base_commands(config).len() * runs_per_command(
            config_vars(config),
        ),
{
    lemma_expand_all_len(base_commands(config), config_vars(config));
}

fn placeholder_chars(name: &String) -> (r: Vec<char>)
    ensures
        r@ == placeholder(name@),
        r@.len() > 0,
{
    let mut r: Vec<char> = Vec::new();
    r.push('{');
    r.push('{');
    let nc = chars_of(name.as_str());
    let mut i: usize = 0;
    while i < nc.len()
        invariant
            i <= nc@.len(),
            r@ == seq!['{', '{'] + nc@.take(i as int),
        decreases nc@.len() - i,
    {
        r.push(nc[i]);
        i = i + 1;
        assert(r@ == seq!['{', '{'] + nc@.take(i as int));
    }
    r.push('}');
    r.push('}');
    proof {
        reveal_strlit("{{");
        reveal_strlit("}}");
        assert(nc@.take(nc@.len() as int) == nc@);
        assert(r@ =~= placeholder(name@));
    }
    r
}

fn apply_singles(cmd: &String, vars: &TextMap<VarValue>) -> (r: Vec<char>)
    ensures
        r@ == apply_single_vars(cmd@, vars.entries()),
{
    let mut acc = chars_of(cmd.as_str());
    let mut i: usize = 0;
    while i < vars.len()
        invariant
            i <= vars.entries().len(),
            acc@ == apply_single_vars(cmd@, vars.entries().take(i as int)),
        decreases vars.entries().len() - i,
    {
        let (k, v) = vars.entry(i);
        assert(vars.entries().take(i + 1).drop_last() == vars.entries().take(i as int));
        assert(vars.entries().take(i + 1).last() == vars.entries()[i as int]);
        match v {
            VarValue::One(val) => {
                let p = placeholder_chars(k);
                let vc = chars_of(val.as_str());
                acc = replace_chars(acc.as_slice(), p.as_slice(), vc.as_slice());
            },
            VarValue::Many(_) => {},
        }
        i = i + 1;
    }
    assert(vars.entries().take(vars.entries().len() as int) == vars.entries());
    acc
}

fn find_list_var(vars: &TextMap<VarValue>) -> (r: Option<usize>)
    ensures
        r matches Some(i) ==> i < vars.entries().len() && vars.entries()[i as int].1 is Many
            && first_list_var(vars.entries()) == Some(
            (
                vars.entries()[i as int].0@,
                strings_view(vars.entries()[i as int].1->Many_0@),
            ),
        ),
        r is None ==> first_list_var(vars.entries()) is None,
{
    let mut i: usize = 0;
    assert(vars.entries().skip(0) == vars.entries());
    while i < vars.len()
        invariant
            i <= vars.entries().len(),
            first_list_var(vars.entries()) == first_list_var(vars.entries().skip(i as int)),
        decreases vars.entries().len() - i,
    {
        let (_, v) = vars.entry(i);
        assert(vars.entries().skip(i as int)[0] == vars.entries()[i as int]);
        assert(vars.entries().skip(i as int).drop_first() == vars.entries().skip(i + 1));
        match v {
            VarValue::Many(_) => return Some(i),
            VarValue::One(_) => {},
        }
        i = i + 1;
    }
    None
}

fn expand_into(out: &mut Vec<String>, cmd: &String, vars: &TextMap<VarValue>)
    ensures
        strings_view(final(out)@) == strings_view(old(out)@) + expand_one(cmd@, vars.entries()),
{
    let e = apply_singles(cmd, vars);
    match find_list_var(vars) {
        Some(li) => {
            let (k, v) = vars.entry(li);
            match v {
                VarValue::Many(values) => {
                    let p = placeholder_chars(k);
                    let ghost start = strings_view(out@);
                    let ghost vals = strings_view(values@);
                    let ghost target = vals.map_values(
                        |x: Seq<char>| replace_all(e@, placeholder(k@), x),
                    );
                    let mut j: usize = 0;
                    while j < values.len()
                        invariant
                            j <= values@.len(),
                            vals == strings_view(values@),
                            p@ == placeholder(k@),
                            p@.len() > 0,
                            target == vals.map_values(|x: Seq<char>| replace_all(e@, placeholder(k@), x)),
                            strings_view(out@) == start + target.take(j as int),
                        decreases values@.len() - j,
                    {
                        let vc = chars_of(values[j].as_str());
                        let x = replace_chars(e.as_slice(), p.as_slice(), vc.as_slice());
                        let ghost before = out@;
                        out.push(string_of(x.as_slice()));
                        assert(strings_view(out@) =~= strings_view(before).push(x@));
                        assert(target.take(j + 1) =~= target.take(j as int).push(target[j as int]));
                        j = j + 1;
                    }
                    assert(target.take(values@.len() as int) == target);
                },
                VarValue::One(_) => {},
            }
        },
        None => {
            let ghost before = out@;
            out.push(string_of(e.as_slice()));
            assert(strings_view(out@) =~= strings_view(before).push(e@));
        },
    }
}

/// The commands a tile runs: each configured command with its single-valued
/// variables substituted, run once per value of the first list variable.
pub fn expand_commands(config: &GhQueryConfig) -> (r: Vec<String>)
    ensures
        strings_view(r@) == expand_commands_spec(*config),
{
    let empty_vars: TextMap<VarValue> = TextMap::new();
    let vars: &TextMap<VarValue> = match &config.variables {
        Some(v) => v,
        None => &empty_vars,
    };
    assert(vars.entries() == config_vars(*config));
    let mut out: Vec<String> = Vec::new();
    let use_list = match &config.commands {
        Some(c) => c.len() > 0,
        None => false,
    };
    if use_list {
        let c = config.commands.as_ref().unwrap();
        let ghost base = strings_view(c@);
        let mut i: usize = 0;
        while i < c.len()
            invariant
                i <= c@.len(),
                base == strings_view(c@),
                vars.entries() == config_vars(*config),
                strings_view(out@) == expand_all(base.take(i as int), vars.entries()),
            decreases c@.len() - i,
        {
            expand_into(&mut out, &c[i], vars);
            assert(base.take(i + 1).drop_last() == base.take(i as int));
            assert(base.take(i + 1).last() == c@[i as int]@);
            i = i + 1;
        }
        assert(base.take(c@.len() as int) == base);
        assert(base_commands(*config) == base);
    } else {
        expand_into(&mut out, &config.command, vars);
        let ghost one = seq![config.command@];
        assert(one.drop_last() == Seq::<Seq<char>>::empty());
        assert(one.last() == config.command@);
        assert(expand_all(Seq::<Seq<char>>::empty(), vars.entries()) == Seq::<Seq<char>>::empty());
        assert(Seq::<Seq<char>>::empty() + expand_one(config.command@, vars.entries()) == expand_one(
            config.command@,
            vars.entries(),
        ));
        assert(expand_all(one, vars.entries()) == expand_one(config.command@, vars.entries()));
        assert(base_commands(*config) == one);
    }
    out
}


// ---------------------------------------------------------------------------
// Tokens of a command
// ---------------------------------------------------------------------------

/// `str::split_whitespace`: the maximal runs of non-whitespace characters.
pub open spec fn words(s: Seq<char>) -> Seq<Seq<char>>
    decreases s.len(),
{
    if s.len() == 0 {
        Seq::empty()
    } else {
        let rest = words(s.drop_last());
        let c = s.last();
        if is_ws(c) {
            rest
        } else if s.len() >= 2 && !is_ws(s[s.len() - 2]) {
            rest.update(rest.len() - 1, rest.last().push(c))
        } else {
            rest.push(seq![c])
        }
    }
}

proof fn lemma_words_nonempty(s: Seq<char>)
    requires
        s.len() > 0,
        !is_ws(s.last()),
    ensures
        words(s).len() >= 1,
    decreases s.len(),
{
    if s.len() >= 2 && !is_ws(s[s.len() - 2]) {
        lemma_words_nonempty(s.drop_last());
    }
}

pub open spec fn words_view(v: Seq<Vec<char>>) -> Seq<Seq<char>> {
    v.map_values(|w: Vec<char>| w@)
}

/// `s.split_whitespace()` on a character vector.
pub fn split_words(s: &[char]) -> (r: Vec<Vec<char>>)
    ensures
        words_view(r@) == words(s@),
{
    let mut done: Vec<Vec<char>> = Vec::new();
    let mut cur: Vec<char> = Vec::new();
    let mut i: usize = 0;
    while i < s.len()
        invariant
            i <= s@.len(),
            (i > 0 && !is_ws(s@[i - 1])) ==> words(s@.take(i as int)) == words_view(done@).push(
                cur@,
            ) && cur@.len() > 0,
            !(i > 0 && !is_ws(s@[i - 1])) ==> words(s@.take(i as int)) == words_view(done@)
                && cur@.len() == 0,
        decreases s@.len() - i,
    {
        let c = s[i];
        assert(s@.take(i + 1).drop_last() == s@.take(i as int));
        assert(s@.take(i + 1).last() == c);
        if i >= 1 {
            assert(s@.take(i + 1)[i - 1] == s@[i - 1]);
        }
        if is_whitespace(c) {
            if cur.len() > 0 {
                let ghost old_done = done@;
                let w = cur;
                done.push(w);
                cur = Vec::new();
                assert(words_view(done@) =~= words_view(old_done).push(w@));
            }
        } else {
            let ghost old_cur = cur@;
            cur.push(c);
            proof {
                if i > 0 && !is_ws(s@[i - 1]) {
                    lemma_words_nonempty(s@.take(i as int));
                    assert(words_view(done@).push(cur@) =~= words_view(done@).push(old_cur).update(
                        words_view(done@).len() as int,
                        old_cur.push(c),
                    ));
                } else {
                    assert(cur@ =~= seq![c]);
                }
            }
        }
        i = i + 1;
    }
    assert(s@.take(s@.len() as int) == s@);
    if cur.len() > 0 {
        let ghost old_done = done@;
        let w = cur;
        done.push(w);
        assert(words_view(done@) =~= words_view(old_done).push(w@));
    }
    done
}

/// The repository named by `--repo <r>`, `-R <r>` or `--repo=<r>`, scanning
/// tokens from `i`.
pub open spec fn repo_flag(t: Seq<Seq<char>>, i: int) -> Option<Seq<char>>
    decreases t.len() - i,
{
    if i < 0 || i >= t.len() {
        None
    } else if (t[i] == "--repo"@ || t[i] == "-R"@) && i + 1 < t.len() {
        Some(t[i + 1])
    } else if starts_with(t[i], "--repo="@) {
        Some(t[i].subrange(7, t[i].len() as int))
    } else {
        repo_flag(t, i + 1)
    }
}

pub open spec fn parse_repo_spec(cmd: Seq<char>) -> Option<Seq<char>> {
    repo_flag(words(cmd), 0)
}

fn chars_eq(a: &[char], b: &[char]) -> (r: bool)
    ensures
        r == (a@ == b@),
{
    crate::text_map::compare_chars(a, b) == 0
}

/// The `--repo`/`-R` argument of a `gh` command line, if any.
pub fn parse_repo_from_command(cmd: &str) -> (r: Option<String>)
    ensures
        match r {
            Some(s) => parse_repo_spec(cmd@) == Some(s@),
            None => parse_repo_spec(cmd@) is None,
        },
{
    let cs = chars_of(cmd);
    let toks = split_words(cs.as_slice());
    let ghost tv = words_view(toks@);
    let repo_long = chars_of("--repo");
    let repo_short = chars_of("-R");
    let repo_eq = chars_of("--repo=");
    proof {
        reveal_strlit("--repo=");
    }
    let mut i: usize = 0;
    while i < toks.len()
        invariant
            tv == words_view(toks@),
            tv == words(cmd@),
            i <= toks@.len(),
            repo_long@ == "--repo"@,
            repo_short@ == "-R"@,
            repo_eq@ == "--repo="@,
            "--repo="@.len() == 7,
            repo_flag(tv, 0) == repo_flag(tv, i as int),
        decreases toks@.len() - i,
    {
        let t = &toks[i];
        assert(tv[i as int] == t@);
        let is_flag = chars_eq(t.as_slice(), repo_long.as_slice()) || chars_eq(
            t.as_slice(),
            repo_short.as_slice(),
        );
        if is_flag && i + 1 < toks.len() {
            assert(tv[i + 1] == toks@[i + 1]@);
            return Some(string_of(toks[i + 1].as_slice()));
        }
        let prefixed = t.len() >= 7 && chars_eq(
            slice_range(t.as_slice(), 0, 7).as_slice(),
            repo_eq.as_slice(),
        );
        if prefixed {
            return Some(string_of(slice_range(t.as_slice(), 7, t.len()).as_slice()));
        }
        i = i + 1;
    }
    None
}

// ---------------------------------------------------------------------------
// Row fields
// ---------------------------------------------------------------------------

/// `row.repository`: a string as is, or an object's `nameWithOwner`
/// (falling back to `name` only when `nameWithOwner` is absent).
pub open spec fn row_repo_spec(row: Json) -> Option<Seq<char>> {
    match json_get(row, "repository"@) {
        None => None,
        Some(repo) => match repo {
            Json::Null => None,
            Json::Str(s) => Some(s@),
            Json::Object { .. } => {
                let v = match json_get(repo, "nameWithOwner"@) {
                    Some(x) => Some(x),
                    None => json_get(repo, "name"@),
                };
                match v {
                    Some(x) => json_as_str(x),
                    None => None,
                }
            },
            _ => None,
        },
    }
}

pub fn row_repo(row: &Json) -> (r: Option<String>)
    ensures
        match r {
            Some(s) => row_repo_spec(*row) == Some(s@),
            None => row_repo_spec(*row) is None,
        },
{
    let repo = match row.get("repository") {
        Some(x) => x,
        None => return None,
    };
    match repo {
        Json::Null => None,
        Json::Str(s) => Some(s.clone()),
        Json::Object { .. } => {
            let v = match repo.get("nameWithOwner") {
                Some(x) => Some(x),
                None => repo.get("name"),
            };
            match v {
                Some(x) => match x.as_str() {
                    Some(s) => Some(s.clone()),
                    None => None,
                },
                None => None,
            }
        },
        _ => None,
    }
}

/// `row.number` as an integer, or a string holding one.
pub open spec fn row_number_spec(row: Json) -> Option<i64> {
    match json_get(row, "number"@) {
        None => None,
        Some(n) => match json_as_i64(n) {
            Some(v) => Some(v),
            None => match json_as_str(n) {
                Some(s) => parse_i64(s),
                None => None,
            },
        },
    }
}

pub fn row_number(row: &Json) -> (r: Option<i64>)
    ensures
        r == row_number_spec(*row),
{
    let n = match row.get("number") {
        Some(x) => x,
        None => return None,
    };
    match n.as_i64() {
        Some(v) => Some(v),
        None => match n.as_str() {
            Some(s) => {
                let cs = chars_of(s.as_str());
                parse_i64_chars(cs.as_slice())
            },
            None => None,
        },
    }
}

/// The part of `s` after its last `/` (all of `s` when there is none).
pub open spec fn after_last_slash(s: Seq<char>) -> Seq<char>
    decreases s.len(),
{
    if s.len() == 0 {
        s
    } else if s.last() == '/' {
        Seq::empty()
    } else {
        after_last_slash(s.drop_last()).push(s.last())
    }
}

pub fn after_last_slash_exec(cs: &[char]) -> (r: Vec<char>)
    ensures
        r@ == after_last_slash(cs@),
{
    let mut i: usize = cs.len();
    while i > 0 && cs[i - 1] != '/'
        invariant
            i <= cs@.len(),
            forall|k: int| i <= k < cs@.len() ==> cs@[k] != '/',
            i > 0 && cs@[i - 1] == '/' ==> true,
        decreases i,
    {
        i = i - 1;
    }
    let r = slice_range(cs, i, cs.len());
    proof {
        lemma_after_last_slash(cs@, i as int);
    }
    r
}

proof fn lemma_after_last_slash(s: Seq<char>, i: int)
    requires
        0 <= i <= s.len(),
        forall|k: int| i <= k < s.len() ==> s[k] != '/',
        i == 0 || s[i - 1] == '/',
    ensures
        after_last_slash(s) == s.subrange(i, s.len() as int),
    decreases s.len(),
{
    if s.len() == 0 {
    } else if s.len() == i {
        assert(s.last() == '/');
    } else {
        let d = s.drop_last();
        if i == d.len() + 1 {
        } else {
            assert forall|k: int| i <= k < d.len() implies d[k] != '/' by {
                assert(d[k] == s[k]);
            }
            if i > 0 {
                assert(d[i - 1] == s[i - 1]);
            }
            lemma_after_last_slash(d, i);
            assert(s.subrange(i, s.len() as int) == d.subrange(i, d.len() as int).push(s.last()));
        }
    }
}

/// `"{repo name}#{number}"`: the key by which a row is ordered and found
/// again; rows without both a number and a repository have none.
pub open spec fn row_key_spec(row: Json) -> Option<Seq<char>> {
    match row_number_spec(row) {
        None => None,
        Some(num) => match row_repo_spec(row) {
            None => None,
            Some(repo) => Some(after_last_slash(repo) + "#"@ + decimal(num as int)),
        },
    }
}

pub fn row_key(row: &Json) -> (r: Option<String>)
    ensures
        match r {
            Some(s) => row_key_spec(*row) == Some(s@),
            None => row_key_spec(*row) is None,
        },
{
    let num = match row_number(row) {
        Some(n) => n,
        None => return None,
    };
    let repo = match row_repo(row) {
        Some(r) => r,
        None => return None,
    };
    let rc = chars_of(repo.as_str());
    let name = after_last_slash_exec(rc.as_slice());
    let mut s = string_of(name.as_slice());
    push_str(&mut s, "#");
    push_decimal(&mut s, num);
    Some(s)
}

/// Whether a row is a pull request or an issue: the row's own
/// `isPullRequest` flag when present, else guessed from the first command.
pub open spec fn row_ref_type_spec(row: Json, commands: Seq<Seq<char>>) -> Seq<char> {
    match json_get(row, "isPullRequest"@) {
        Some(v) if json_as_bool(v) is Some => if json_as_bool(v)->0 {
            "pr"@
        } else {
            "issue"@
        },
        _ => {
            let cmd = if commands.len() > 0 {
                lowercase(commands[0])
            } else {
                Seq::empty()
            };
            if starts_with(cmd, "pr "@) || contains_seq(cmd, " prs "@) || starts_with(cmd, "prs "@) {
                "pr"@
            } else {
                "issue"@
            }
        },
    }
}

fn has_prefix(s: &[char], p: &str) -> (r: bool)
    ensures
        r == starts_with(s@, p@),
{
    let pc = chars_of(p);
    if pc.len() > s.len() {
        return false;
    }
    let head = slice_range(s, 0, pc.len());
    chars_eq(head.as_slice(), pc.as_slice())
}

fn has_infix(s: &[char], p: &str) -> (r: bool)
    ensures
        r == contains_seq(s@, p@),
{
    let pc = chars_of(p);
    let found = find_chars_from(s, pc.as_slice(), 0);
    proof {
        crate::text::lemma_find_from(s@, p@, 0);
    }
    match found {
        Some(k) => {
            assert(matches_at(s@, p@, k as int));
            true
        },
        None => false,
    }
}

pub fn row_ref_type(row: &Json, commands: &[String]) -> (r: &'static str)
    ensures
        r@ == row_ref_type_spec(*row, strings_view(commands@)),
{
    if let Some(v) = row.get("isPullRequest") {
        if let Some(b) = v.as_bool() {
            return if b {
                "pr"
            } else {
                "issue"
            };
        }
    }
    let cmd: Vec<char> = if commands.len() > 0 {
        let l = to_lowercase(commands[0].as_str());
        chars_of(l.as_str())
    } else {
        Vec::new()
    };
    if has_prefix(cmd.as_slice(), "pr ") || has_infix(cmd.as_slice(), " prs ") || has_prefix(
        cmd.as_slice(),
        "prs ",
    ) {
        "pr"
    } else {
        "issue"
    }
}

/// localStorage key of a tile's hidden columns.
pub fn hidden_key(tile_id: i64) -> (r: String)
    ensures
        r@ == "gh-tile-hidden-"@ + decimal(tile_id as int),
{
    let mut s = string_from("gh-tile-hidden-");
    push_decimal(&mut s, tile_id);
    s
}

/// The hidden columns of a tile: the stored list, or `url` alone when none
/// was stored.
pub fn hidden_columns(stored: Option<Vec<String>>) -> (r: Vec<String>)
    ensures
        strings_view(r@) == match stored {
            Some(h) => strings_view(h@),
            None => seq!["url"@],
        },
{
    match stored {
        Some(h) => h,
        None => {
            let mut r: Vec<String> = Vec::new();
            r.push(string_from("url"));
            proof {
                assert(strings_view(r@) =~= seq!["url"@]);
            }
            r
        },
    }
}

/// Key under which a private note is attached to an issue or PR.
pub fn note_key(repo: &str, ref_type: &str, number: i64) -> (r: String)
    ensures
        r@ == repo@ + "|"@ + ref_type@ + "|"@ + decimal(number as int),
{
    let mut s = string_from(repo);
    push_str(&mut s, "|");
    push_str(&mut s, ref_type);
    push_str(&mut s, "|");
    push_decimal(&mut s, number);
    s
}


/// The attachment key of a note: `repo|ref_type|number`, for notes tied to
/// all three.
pub fn note_map_key(note: &crate::types::Note) -> (r: Option<String>)
    ensures
        match (note.repo, note.ref_type, note.ref_number) {
            (Some(rp), Some(t), Some(n)) => r matches Some(k) && k@ == rp@ + "|"@ + t@ + "|"@
                + decimal(n as int),
            _ => r is None,
        },
{
    match (&note.repo, &note.ref_type, note.ref_number) {
        (Some(rp), Some(t), Some(n)) => Some(note_key(rp.as_str(), t.as_str(), n)),
        _ => None,
    }
}

/// The note dialog's prefill for a row: its title (empty when it has none),
/// repository, kind and number.
pub fn row_note_prefill(row: &Json, commands: &[String]) -> (r: crate::types::CreateNoteInput)
    ensures
        r.title@ == (match json_get(*row, "title"@) {
            Some(v) => match json_as_str(v) {
                Some(t) => t,
                None => Seq::empty(),
            },
            None => Seq::empty(),
        }),
        (match r.repo {
            Some(x) => Some(x@),
            None => None,
        }) == row_repo_spec(*row),
        r.ref_type matches Some(t) && t@ == row_ref_type_spec(*row, strings_view(commands@)),
        r.ref_number == row_number_spec(*row),
        r.body is None && r.tags is None,
{
    let title = match row.get("title") {
        Some(v) => match v.as_str() {
            Some(t) => t.clone(),
            None => String::new(),
        },
        None => String::new(),
    };
    crate::types::CreateNoteInput {
        title,
        body: None,
        repo: row_repo(row),
        ref_type: Some(string_from(row_ref_type(row, commands))),
        ref_number: row_number(row),
        tags: None,
    }
}

// ---------------------------------------------------------------------------
// Columns
// ---------------------------------------------------------------------------

/// The keys of an object row, in its iteration order.
pub open spec fn object_keys(row: Json) -> Seq<Seq<char>> {
    match row {
        Json::Object { entries, .. } => entries@.map_values(|e: (String, Json)| e.0@),
        _ => Seq::empty(),
    }
}

/// `acc` followed by the keys of `ks` not seen before, in first-seen order.
pub open spec fn add_unique(acc: Seq<Seq<char>>, ks: Seq<Seq<char>>) -> Seq<Seq<char>>
    decreases ks.len(),
{
    if ks.len() == 0 {
        acc
    } else {
        let a = add_unique(acc, ks.drop_last());
        if a.contains(ks.last()) {
            a
        } else {
            a.push(ks.last())
        }
    }
}

/// Every key of every object row, each once, in first-seen order.
pub open spec fn discovered_keys(rows: Seq<Json>) -> Seq<Seq<char>>
    decreases rows.len(),
{
    if rows.len() == 0 {
        Seq::empty()
    } else {
        add_unique(discovered_keys(rows.drop_last()), object_keys(rows.last()))
    }
}

/// The keys found in the rows; where some row has an `author`, followed by
/// the derived `authorGroup` column (unless a row already has that key).
pub open spec fn discovered_columns(rows: Seq<Json>) -> Seq<Seq<char>> {
    let d = discovered_keys(rows);
    if d.contains("author"@) && !d.contains("authorGroup"@) {
        d.push("authorGroup"@)
    } else {
        d
    }
}

/// The tile's columns: the configured list when there is one, otherwise the
/// columns found in the rows.
pub open spec fn all_keys_spec(columns: Option<Seq<Seq<char>>>, rows: Seq<Json>) -> Seq<Seq<char>> {
    match columns {
        Some(c) => c,
        None => discovered_columns(rows),
    }
}

pub fn contains_string(v: &Vec<String>, k: &String) -> (r: bool)
    ensures
        r == strings_view(v@).contains(k@),
{
    let mut i: usize = 0;
    while i < v.len()
        invariant
            i <= v@.len(),
            forall|j: int| 0 <= j < i ==> v@[j]@ != k@,
        decreases v@.len() - i,
    {
        if crate::text_map::compare_str(&v[i], k) == 0 {
            assert(strings_view(v@)[i as int] == k@);
            return true;
        }
        i = i + 1;
    }
    proof {
        if strings_view(v@).contains(k@) {
            let j = choose|j: int| 0 <= j < strings_view(v@).len() && strings_view(v@)[j] == k@;
            assert(v@[j]@ == k@);
        }
    }
    false
}

pub fn copy_strings(v: &Vec<String>) -> (r: Vec<String>)
    ensures
        r@ == v@,
{
    let mut r: Vec<String> = Vec::new();
    let mut i: usize = 0;
    while i < v.len()
        invariant
            i <= v@.len(),
            r@ == v@.take(i as int),
        decreases v@.len() - i,
    {
        r.push(v[i].clone());
        assert(r@ == v@.take(i + 1));
        i = i + 1;
    }
    assert(v@.take(v@.len() as int) == v@);
    r
}

/// The columns of a tile before hiding.
pub fn all_keys(columns: &Option<Vec<String>>, rows: &[Json]) -> (r: Vec<String>)
    ensures
        strings_view(r@) == all_keys_spec(
            match columns {
                Some(c) => Some(strings_view(c@)),
                None => None,
            },
            rows@,
        ),
{
    if let Some(cols) = columns {
        return copy_strings(cols);
    }
    let mut keys: Vec<String> = Vec::new();
    let mut i: usize = 0;
    while i < rows.len()
        invariant
            i <= rows@.len(),
            strings_view(keys@) == discovered_keys(rows@.take(i as int)),
        decreases rows@.len() - i,
    {
        assert(rows@.take(i + 1).drop_last() == rows@.take(i as int));
        assert(rows@.take(i + 1).last() == rows@[i as int]);
        match &rows[i] {
            Json::Object { entries, .. } => {
                let ghost acc0 = strings_view(keys@);
                let ghost ks = object_keys(rows@[i as int]);
                let mut k: usize = 0;
                while k < entries.len()
                    invariant
                        k <= entries@.len(),
                        ks == entries@.map_values(|e: (String, Json)| e.0@),
                        strings_view(keys@) == add_unique(acc0, ks.take(k as int)),
                    decreases entries@.len() - k,
                {
                    assert(ks.take(k + 1).drop_last() == ks.take(k as int));
                    assert(ks.take(k + 1).last() == entries@[k as int].0@);
                    let name = &entries[k].0;
                    if !contains_string(&keys, name) {
                        let ghost before = keys@;
                        keys.push(name.clone());
                        assert(strings_view(keys@) =~= strings_view(before).push(name@));
                    }
                    k = k + 1;
                }
                assert(ks.take(entries@.len() as int) == ks);
            },
            _ => {
                assert(object_keys(rows@[i as int]) == Seq::<Seq<char>>::empty());
            },
        }
        i = i + 1;
    }
    assert(rows@.take(rows@.len() as int) == rows@);
    let author = string_from("author");
    let group = string_from("authorGroup");
    if contains_string(&keys, &author) && !contains_string(&keys, &group) {
        let ghost before = keys@;
        keys.push(group);
        assert(strings_view(keys@) =~= strings_view(before).push("authorGroup"@));
    }
    keys
}

/// The shown columns: all columns except the hidden ones.
pub open spec fn visible_keys_spec(all: Seq<Seq<char>>, hidden: Seq<Seq<char>>) -> Seq<Seq<char>>
    decreases all.len(),
{
    if all.len() == 0 {
        Seq::empty()
    } else {
        let rest = visible_keys_spec(all.drop_last(), hidden);
        if hidden.contains(all.last()) {
            rest
        } else {
            rest.push(all.last())
        }
    }
}

pub fn visible_keys(all: &Vec<String>, hidden: &Vec<String>) -> (r: Vec<String>)
    ensures
        strings_view(r@) == visible_keys_spec(strings_view(all@), strings_view(hidden@)),
{
    let mut r: Vec<String> = Vec::new();
    let mut i: usize = 0;
    while i < all.len()
        invariant
            i <= all@.len(),
            strings_view(r@) == visible_keys_spec(strings_view(all@).take(i as int), strings_view(hidden@)),
        decreases all@.len() - i,
    {
        assert(strings_view(all@).take(i + 1).drop_last() == strings_view(all@).take(i as int));
        assert(strings_view(all@).take(i + 1).last() == all@[i as int]@);
        if !contains_string(hidden, &all[i]) {
            let ghost before = r@;
            r.push(all[i].clone());
            assert(strings_view(r@) =~= strings_view(before).push(all@[i as int]@));
        }
        i = i + 1;
    }
    assert(strings_view(all@).take(all@.len() as int) == strings_view(all@));
    r
}

/// `i` is the position of the first occurrence of `k` in `list`.
pub open spec fn is_first_pos(list: Seq<Seq<char>>, k: Seq<char>, i: int) -> bool {
    &&& 0 <= i < list.len()
    &&& list[i] == k
    &&& forall|j: int| 0 <= j < i ==> list[j] != k
}

/// `toggle`: removes the first occurrence of `k`, or appends `k` when absent.
pub open spec fn toggle_spec(list: Seq<Seq<char>>, k: Seq<char>) -> Seq<Seq<char>> {
    if list.contains(k) {
        list.remove(choose|i: int| is_first_pos(list, k, i))
    } else {
        list.push(k)
    }
}

/// Showing a hidden column (or ticking a value) and undoing it gives back
/// the list it started from.
pub proof fn lemma_toggle_twice(list: Seq<Seq<char>>, k: Seq<char>)
    requires
        !list.contains(k),
    ensures
        toggle_spec(toggle_spec(list, k), k) == list,
{
    let t = list.push(k);
    assert(t[list.len() as int] == k);
    assert(t.contains(k));
    assert forall|j: int| 0 <= j < list.len() implies t[j] != k by {
        assert(t[j] == list[j]);
    }
    assert(is_first_pos(t, k, list.len() as int));
    let c = choose|c: int| is_first_pos(t, k, c);
    assert(c == list.len() as int) by {
        if c < list.len() {
            assert(t[c] == list[c]);
        }
    }
    assert(t.remove(list.len() as int) =~= list);
}

/// Show or hide a column (also used to tick a filter value on or off):
/// removes the first occurrence of `k`, or appends it when absent.
pub fn toggle(list: &mut Vec<String>, k: String)
    ensures
        strings_view(final(list)@) == toggle_spec(strings_view(old(list)@), k@),
{
    let ghost lv = strings_view(list@);
    let mut i: usize = 0;
    while i < list.len()
        invariant
            i <= list@.len(),
            lv == strings_view(list@),
            list@ == old(list)@,
            forall|j: int| 0 <= j < i ==> lv[j] != k@,
        decreases list@.len() - i,
    {
        if crate::text_map::compare_str(&list[i], &k) == 0 {
            proof {
                assert(lv[i as int] == k@);
                assert(is_first_pos(lv, k@, i as int));
                let c = choose|c: int| is_first_pos(lv, k@, c);
                assert(c == i as int);
            }
            let ghost before = list@;
            list.remove(i);
            proof {
                assert(strings_view(list@) =~= lv.remove(i as int));
            }
            return;
        }
        i = i + 1;
    }
    let ghost before = list@;
    list.push(k);
    assert(strings_view(list@) =~= lv.push(k@));
}

// ---------------------------------------------------------------------------
// Repository of rows fetched with `--repo`
// ---------------------------------------------------------------------------

/// `rc.split('/').nth(1).unwrap_or(rc)`: the name part of `owner/name`.
pub open spec fn repo_short_name(rc: Seq<char>) -> Seq<char> {
    let parts = split_on(rc, '/');
    if parts.len() > 1 {
        parts[1]
    } else {
        rc
    }
}

/// The row has no `repository`, or a null one.
pub open spec fn repository_missing(row: Json) -> bool {
    match json_get(row, "repository"@) {
        Some(v) => v is Null,
        None => true,
    }
}

/// What to write into a fetched object row that lacks its repository, when
/// the command named one: `nameWithOwner` and `name`.
pub open spec fn repository_patch_spec(row: Json, repo_from_cmd: Option<Seq<char>>) -> Option<
    (Seq<char>, Seq<char>),
> {
    match repo_from_cmd {
        Some(rc) => if row is Object && repository_missing(row) {
            Some((rc, repo_short_name(rc)))
        } else {
            None
        },
        None => None,
    }
}

/// The `repository` object (`nameWithOwner`, `name`) to add to a row read
/// from a command with `--repo`, or `None` when the row keeps its own.
pub fn repository_patch(row: &Json, repo_from_cmd: &Option<String>) -> (r: Option<(String, String)>)
    ensures
        match r {
            Some((full, name)) => repository_patch_spec(
                *row,
                match repo_from_cmd {
                    Some(s) => Some(s@),
                    None => None,
                },
            ) == Some((full@, name@)),
            None => repository_patch_spec(
                *row,
                match repo_from_cmd {
                    Some(s) => Some(s@),
                    None => None,
                },
            ) is None,
        },
{
    let rc = match repo_from_cmd {
        Some(rc) => rc,
        None => return None,
    };
    let missing = match row.get("repository") {
        Some(v) => v.is_null(),
        None => true,
    };
    let is_object = match row {
        Json::Object { .. } => true,
        _ => false,
    };
    if !(missing && is_object) {
        return None;
    }
    let parts = split_chars(chars_of(rc.as_str()).as_slice(), '/');
    assert(parts@.len() == split_on(rc@, '/').len());
    let name = if parts.len() > 1 {
        assert(parts@[1]@ == split_on(rc@, '/')[1]);
        string_of(parts[1].as_slice())
    } else {
        rc.clone()
    };
    Some((rc.clone(), name))
}

/// The rows of one command's output: the items of an array, or the output
/// itself as a single row.
pub open spec fn output_rows(output: Json) -> Seq<Json> {
    match output {
        Json::Array { items, .. } => items@,
        _ => seq![output],
    }
}

/// A row with the repository that it is to be given, if any.
pub type PlannedRow = (Json, Option<(String, String)>);

/// A planned row by the views of its repository texts.
pub open spec fn planned_view(p: PlannedRow) -> (Json, Option<(Seq<char>, Seq<char>)>) {
    (
        p.0,
        match p.1 {
            Some((full, name)) => Some((full@, name@)),
            None => None,
        },
    )
}

/// Every row of every successful command, in command order, each with the
/// repository that the command's `--repo` gives it when it lacks its own.
pub open spec fn result_rows_spec(results: Seq<(String, Result<Json, String>)>) -> Seq<
    (Json, Option<(Seq<char>, Seq<char>)>),
>
    decreases results.len(),
{
    if results.len() == 0 {
        Seq::empty()
    } else {
        let (cmd, res) = results.last();
        result_rows_spec(results.drop_last()) + match res {
            Ok(output) => output_rows(output).map_values(
                |row: Json| (row, repository_patch_spec(row, parse_repo_spec(cmd@))),
            ),
            Err(_) => Seq::empty(),
        }
    }
}

/// The elements of `v` in reverse order.
fn reversed<T>(v: Vec<T>) -> (r: Vec<T>)
    ensures
        r@.len() == v@.len(),
        forall|j: int| 0 <= j < r@.len() ==> r@[j] == v@[v@.len() - 1 - j],
{
    let ghost orig = v@;
    let mut v = v;
    let mut r: Vec<T> = Vec::new();
    while v.len() > 0
        invariant
            r@.len() + v@.len() == orig.len(),
            v@ == orig.take(v@.len() as int),
            forall|j: int| 0 <= j < r@.len() ==> r@[j] == orig[orig.len() - 1 - j],
        decreases v@.len(),
    {
        let x = v.pop().unwrap();
        r.push(x);
    }
    r
}

/// The rows of a GH Query tile from its commands and what each returned
/// (its output, or an error): every row of every successful command, in
/// order, paired with the repository to add to it.
pub fn result_rows(results: Vec<(String, Result<Json, String>)>) -> (r: Vec<PlannedRow>)
    ensures
        r@.map_values(|p: PlannedRow| planned_view(p)) == result_rows_spec(results@),
{
    let ghost all = results@;
    let total: usize = results.len();
    let mut pending = reversed(results);
    let mut out: Vec<PlannedRow> = Vec::new();
    let mut n: usize = 0;
    while pending.len() > 0
        invariant
            n + pending@.len() == all.len(),
            total == all.len(),
            forall|j: int| 0 <= j < pending@.len() ==> pending@[j] == all[all.len() - 1 - j],
            out@.map_values(|p: PlannedRow| planned_view(p)) == result_rows_spec(all.take(n as int)),
        decreases pending@.len(),
    {
        let (cmd, res) = pending.pop().unwrap();
        assert((cmd, res) == all[n as int]);
        assert(all.take(n + 1).drop_last() == all.take(n as int));
        assert(all.take(n + 1).last() == all[n as int]);
        if let Ok(output) = res {
            let ghost rows = output_rows(output);
            let repo = parse_repo_from_command(cmd.as_str());
            let ghost rv: Option<Seq<char>> = crate::war_room::opt_view(repo);
            assert(rv == parse_repo_spec(cmd@));
            let items: Vec<Json> = match output {
                Json::Array { items, .. } => items,
                other => {
                    let mut one: Vec<Json> = Vec::new();
                    one.push(other);
                    assert(one@ =~= seq![output]);
                    one
                },
            };
            assert(items@ == rows);
            let ghost before = out@.map_values(|p: PlannedRow| planned_view(p));
            let count: usize = items.len();
            let mut left = reversed(items);
            let mut k: usize = 0;
            while left.len() > 0
                invariant
                    k + left@.len() == rows.len(),
                    count == rows.len(),
                    forall|j: int| 0 <= j < left@.len() ==> left@[j] == rows[rows.len() - 1 - j],
                    rv == parse_repo_spec(cmd@),
                    rv == crate::war_room::opt_view(repo),
                    out@.map_values(|p: PlannedRow| planned_view(p)) == before + rows.take(
                        k as int,
                    ).map_values(|row: Json| (row, repository_patch_spec(row, rv))),
                decreases left@.len(),
            {
                let row = left.pop().unwrap();
                assert(row == rows[k as int]);
                let patch = repository_patch(&row, &repo);
                let ghost pv = planned_view((row, patch)).1;
                assert(pv == repository_patch_spec(row, rv));
                let ghost prev = out@;
                out.push((row, patch));
                assert(out@.map_values(|p: PlannedRow| planned_view(p)) =~= prev.map_values(
                    |p: PlannedRow| planned_view(p),
                ).push((row, pv)));
                assert(rows.take(k + 1).map_values(
                    |row: Json| (row, repository_patch_spec(row, rv)),
                ) =~= rows.take(k as int).map_values(
                    |row: Json| (row, repository_patch_spec(row, rv)),
                ).push((row, pv)));
                k = k + 1;
            }
            assert(rows.take(rows.len() as int) == rows);
        }
        n = n + 1;
    }
    assert(all.take(all.len() as int) == all);
    out
}

// ---------------------------------------------------------------------------
// Stored tile preferences
// ---------------------------------------------------------------------------

/// `k` starts with one of the prefixes.
pub open spec fn has_any_prefix(k: Seq<char>, prefixes: Seq<Seq<char>>) -> bool {
    exists|i: int| 0 <= i < prefixes.len() && starts_with(k, #[trigger] prefixes[i])
}

/// The keys that start with one of the prefixes, in order.
pub open spec fn keys_with_any_prefix_spec(keys: Seq<Seq<char>>, prefixes: Seq<Seq<char>>) -> Seq<
    Seq<char>,
>
    decreases keys.len(),
{
    if keys.len() == 0 {
        Seq::empty()
    } else {
        let rest = keys_with_any_prefix_spec(keys.drop_last(), prefixes);
        if has_any_prefix(keys.last(), prefixes) {
            rest.push(keys.last())
        } else {
            rest
        }
    }
}

fn starts_with_any(k: &String, prefixes: &Vec<String>) -> (r: bool)
    ensures
        r == has_any_prefix(k@, strings_view(prefixes@)),
{
    let kc = chars_of(k.as_str());
    let mut i: usize = 0;
    while i < prefixes.len()
        invariant
            i <= prefixes@.len(),
            kc@ == k@,
            forall|j: int| 0 <= j < i ==> !starts_with(k@, #[trigger] strings_view(prefixes@)[j]),
        decreases prefixes@.len() - i,
    {
        let pc = chars_of(prefixes[i].as_str());
        if crate::text::char_slice_eq_at(kc.as_slice(), pc.as_slice(), 0) {
            assert(starts_with(k@, strings_view(prefixes@)[i as int]));
            return true;
        }
        i = i + 1;
    }
    false
}

/// The stored keys (of the browser's storage) that start with any of the
/// prefixes, in storage order.
pub fn keys_with_any_prefix(keys: &Vec<String>, prefixes: &Vec<String>) -> (r: Vec<String>)
    ensures
        strings_view(r@) == keys_with_any_prefix_spec(strings_view(keys@), strings_view(prefixes@)),
{
    let ghost kv = strings_view(keys@);
    let mut r: Vec<String> = Vec::new();
    let mut i: usize = 0;
    while i < keys.len()
        invariant
            i <= keys@.len(),
            kv == strings_view(keys@),
            strings_view(r@) == keys_with_any_prefix_spec(kv.take(i as int), strings_view(prefixes@)),
        decreases keys@.len() - i,
    {
        assert(kv.take(i + 1).drop_last() == kv.take(i as int));
        assert(kv.take(i + 1).last() == keys@[i as int]@);
        if starts_with_any(&keys[i], prefixes) {
            let ghost before = r@;
            r.push(keys[i].clone());
            assert(strings_view(r@) =~= strings_view(before).push(keys@[i as int]@));
        }
        i = i + 1;
    }
    assert(kv.take(keys@.len() as int) == kv);
    r
}

} // verus!
