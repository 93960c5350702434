//! The kanban board: the `hermes kanban` command lines behind each action
//! and how their output is returned.
use vstd::prelude::*;
use crate::json::{items_view, json_parse, parse_json, Json, JsonValue};
use crate::text;
use crate::cli::strings_view;

verus! {

/// The outcome of a board action: its data, or the error.
pub struct KanbanResult<T> {
    pub success: bool,
    pub data: Option<T>,
    pub error: Option<String>,
}

/// `flag` when `on`, nothing otherwise.
pub open spec fn flag_if(on: bool, flag: Seq<char>) -> Seq<Seq<char>> {
    if on { seq![flag] } else { seq![] }
}

/// `flag value` when there is a value.
pub open spec fn opt_flag(flag: Seq<char>, v: Option<Seq<char>>) -> Seq<Seq<char>> {
    match v {
        Some(x) => seq![flag, x],
        None => seq![],
    }
}

/// `v.get(k).and_then(as_str)`.
pub open spec fn member_str(v: Json, k: Seq<char>) -> Option<Seq<char>> {
    match v.get(k) {
        Some(x) => x.as_str(),
        None => None,
    }
}

pub open spec fn member_bool(v: Json, k: Seq<char>) -> Option<bool> {
    match v.get(k) {
        Some(x) => x.as_bool(),
        None => None,
    }
}

pub open spec fn member_int_text(v: Json, k: Seq<char>) -> Option<Seq<char>> {
    match v.get(k) {
        Some(x) => match x.as_i64() {
            Some(p) => Some(int_text(p)),
            None => None,
        },
        None => None,
    }
}

pub open spec fn true_or_false(b: Option<bool>) -> bool {
    b == Some(true)
}

fn strs(parts: &[&str]) -> (r: Vec<String>)
    ensures
        strings_view(r@) == parts@.map_values(|p: &str| p@),
{
    let mut out: Vec<String> = Vec::new();
    let mut i: usize = 0;
    while i < parts.len()
        invariant
            i <= parts.len(),
            strings_view(out@) =~= parts@.map_values(|p: &str| p@).take(i as int),
        decreases parts.len() - i,
    {
        let ghost before = out@;
        let s = text::owned(parts[i]);
        out.push(s);
        assert(strings_view(out@) =~= strings_view(before).push(s@));
        i += 1;
    }
    assert(parts@.map_values(|p: &str| p@).take(parts.len() as int) =~= parts@.map_values(|p: &str| p@));
    out
}

fn push_if(args: &mut Vec<String>, on: bool, flag: &str)
    ensures
        strings_view(final(args)@) == strings_view(old(args)@) + flag_if(on, flag@),
{
    let ghost before = strings_view(args@);
    if on {
        args.push(text::owned(flag));
    }
    assert(strings_view(args@) =~= before + flag_if(on, flag@));
}

fn push_opt(args: &mut Vec<String>, flag: &str, v: Option<&str>)
    ensures
        strings_view(final(args)@) == strings_view(old(args)@) + opt_flag(flag@, crate::paths::opt_view(v)),
{
    let ghost before = strings_view(args@);
    match v {
        Some(x) => {
            args.push(text::owned(flag));
            args.push(text::owned(x));
        },
        None => {},
    }
    assert(strings_view(args@) =~= before + opt_flag(flag@, crate::paths::opt_view(v)));
}

/// `kanban boards --json [--include-archived]`.
pub fn list_boards_args(include_archived: Option<bool>) -> (r: Vec<String>)
    ensures
        strings_view(r@) == seq!["kanban"@, "boards"@, "--json"@] + flag_if(true_or_false(include_archived), "--include-archived"@),
{
    let mut a = strs(&["kanban", "boards", "--json"]);
    assert(strings_view(a@) =~= seq!["kanban"@, "boards"@, "--json"@]);
    push_if(&mut a, include_archived == Some(true), "--include-archived");
    a
}

/// `kanban boards --current --json`.
pub fn current_board_args() -> (r: Vec<String>)
    ensures
        strings_view(r@) == seq!["kanban"@, "boards"@, "--current"@, "--json"@],
{
    let a = strs(&["kanban", "boards", "--current", "--json"]);
    assert(strings_view(a@) =~= seq!["kanban"@, "boards"@, "--current"@, "--json"@]);
    a
}

/// `kanban boards --switch <slug>`.
pub fn switch_board_args(slug: &str) -> (r: Vec<String>)
    ensures
        strings_view(r@) == seq!["kanban"@, "boards"@, "--switch"@, slug@],
{
    let a = strs(&["kanban", "boards", "--switch", slug]);
    assert(strings_view(a@) =~= seq!["kanban"@, "boards"@, "--switch"@, slug@]);
    a
}

/// `kanban create --slug <slug> --json [--name n] [--switch]`.
pub fn create_board_args(slug: &str, name: Option<&str>, switch_after: Option<bool>) -> (r: Vec<String>)
    ensures
        strings_view(r@) == seq!["kanban"@, "create"@, "--slug"@, slug@, "--json"@]
            + opt_flag("--name"@, crate::paths::opt_view(name)) + flag_if(true_or_false(switch_after), "--switch"@),
{
    let mut a = strs(&["kanban", "create", "--slug", slug, "--json"]);
    assert(strings_view(a@) =~= seq!["kanban"@, "create"@, "--slug"@, slug@, "--json"@]);
    push_opt(&mut a, "--name", name);
    push_if(&mut a, switch_after == Some(true), "--switch");
    a
}

/// `kanban archive --slug <slug> [--hard]`.
pub fn remove_board_args(slug: &str, hard_delete: Option<bool>) -> (r: Vec<String>)
    ensures
        strings_view(r@) == seq!["kanban"@, "archive"@, "--slug"@, slug@] + flag_if(true_or_false(hard_delete), "--hard"@),
{
    let mut a = strs(&["kanban", "archive", "--slug", slug]);
    assert(strings_view(a@) =~= seq!["kanban"@, "archive"@, "--slug"@, slug@]);
    push_if(&mut a, hard_delete == Some(true), "--hard");
    a
}

/// `kanban list --json` with the filters given: `--status`, `--assignee`,
/// `--include-archived`.
pub fn list_tasks_args(filters: Option<&JsonValue>) -> (r: Vec<String>)
    ensures
        strings_view(r@) == seq!["kanban"@, "list"@, "--json"@] + match filters {
            Some(f) => opt_flag("--status"@, member_str(f@, "status"@))
                + opt_flag("--assignee"@, member_str(f@, "assignee"@))
                + flag_if(member_bool(f@, "includeArchived"@) == Some(true), "--include-archived"@),
            None => seq![],
        },
{
    let mut a = strs(&["kanban", "list", "--json"]);
    assert(strings_view(a@) =~= seq!["kanban"@, "list"@, "--json"@]);
    match filters {
        Some(f) => {
            let status = match f.get("status") { Some(x) => x.as_string(), None => None };
            let assignee = match f.get("assignee") { Some(x) => x.as_string(), None => None };
            let archived = match f.get("includeArchived") { Some(x) => x.as_bool(), None => None };
            match &status { Some(s) => push_opt(&mut a, "--status", Some(s.as_str())), None => push_opt(&mut a, "--status", None) }
            match &assignee { Some(s) => push_opt(&mut a, "--assignee", Some(s.as_str())), None => push_opt(&mut a, "--assignee", None) }
            push_if(&mut a, archived == Some(true), "--include-archived");
        },
        None => {},
    }
    a
}

/// `kanban show <id> --json`.
pub fn get_task_args(task_id: &str) -> (r: Vec<String>)
    ensures
        strings_view(r@) == seq!["kanban"@, "show"@, task_id@, "--json"@],
{
    let a = strs(&["kanban", "show", task_id, "--json"]);
    assert(strings_view(a@) =~= seq!["kanban"@, "show"@, task_id@, "--json"@]);
    a
}

/// The decimal text of a signed integer.
pub open spec fn int_text(n: int) -> Seq<char> {
    if n < 0 { seq!['-'] + text::dec_text((-n) as nat) } else { text::dec_text(n as nat) }
}

fn i64_string(n: i64) -> (r: String)
    ensures
        r@ == int_text(n as int),
{
    if n < 0 {
        let m: u64 = if n == i64::MIN { 0x8000_0000_0000_0000u64 } else { (-n) as u64 };
        let mut v: Vec<char> = vec!['-'];
        text::push_dec(&mut v, m);
        text::string_of(v.as_slice())
    } else {
        text::dec_string(n as u64)
    }
}

/// `kanban create --json` with the task's `--title`, `--body`, `--assignee`
/// and `--priority` when the input gives them.
pub fn create_task_args(input: &JsonValue) -> (r: Vec<String>)
    ensures
        strings_view(r@) == seq!["kanban"@, "create"@, "--json"@]
            + opt_flag("--title"@, member_str(input@, "title"@))
            + opt_flag("--body"@, member_str(input@, "body"@))
            + opt_flag("--assignee"@, member_str(input@, "assignee"@))
            + opt_flag("--priority"@, member_int_text(input@, "priority"@)),
{
    let mut a = strs(&["kanban", "create", "--json"]);
    assert(strings_view(a@) =~= seq!["kanban"@, "create"@, "--json"@]);
    let title = match input.get("title") { Some(x) => x.as_string(), None => None };
    let body = match input.get("body") { Some(x) => x.as_string(), None => None };
    let assignee = match input.get("assignee") { Some(x) => x.as_string(), None => None };
    let prio = match input.get("priority") {
        Some(x) => match x.as_i64() { Some(p) => Some(i64_string(p)), None => None },
        None => None,
    };
    match &title { Some(s) => push_opt(&mut a, "--title", Some(s.as_str())), None => push_opt(&mut a, "--title", None) }
    match &body { Some(s) => push_opt(&mut a, "--body", Some(s.as_str())), None => push_opt(&mut a, "--body", None) }
    match &assignee { Some(s) => push_opt(&mut a, "--assignee", Some(s.as_str())), None => push_opt(&mut a, "--assignee", None) }
    match &prio { Some(s) => push_opt(&mut a, "--priority", Some(s.as_str())), None => push_opt(&mut a, "--priority", None) }
    a
}

/// `kanban <action> <id> [<flag> <value>]`: assign (`--assignee`), complete
/// (`--result`), block and reclaim (`--reason`); unblock, archive and
/// specify take no value.
pub fn task_action_args(action: &str, task_id: &str, flag: &str, value: Option<&str>) -> (r: Vec<String>)
    ensures
        strings_view(r@) == seq!["kanban"@, action@, task_id@] + opt_flag(flag@, crate::paths::opt_view(value)),
{
    let mut a = strs(&["kanban", action, task_id]);
    assert(strings_view(a@) =~= seq!["kanban"@, action@, task_id@]);
    push_opt(&mut a, flag, value);
    a
}

/// `kanban comment <id> --body <body> --json`.
pub fn comment_task_args(task_id: &str, body: &str) -> (r: Vec<String>)
    ensures
        strings_view(r@) == seq!["kanban"@, "comment"@, task_id@, "--body"@, body@, "--json"@],
{
    let a = strs(&["kanban", "comment", task_id, "--body", body, "--json"]);
    assert(strings_view(a@) =~= seq!["kanban"@, "comment"@, task_id@, "--body"@, body@, "--json"@]);
    a
}

/// `kanban dispatch [--dry-run]`.
pub fn dispatch_args(dry_run: Option<bool>) -> (r: Vec<String>)
    ensures
        strings_view(r@) == seq!["kanban"@, "dispatch"@] + flag_if(true_or_false(dry_run), "--dry-run"@),
{
    let mut a = strs(&["kanban", "dispatch"]);
    assert(strings_view(a@) =~= seq!["kanban"@, "dispatch"@]);
    push_if(&mut a, dry_run == Some(true), "--dry-run");
    a
}

/// A listing action's outcome: the output read as a JSON array (empty
/// when it is not one).
pub fn ok_json(outcome: Result<String, String>) -> (r: KanbanResult<Vec<JsonValue>>)
    ensures
        match outcome {
            Ok(o) => r.success && r.error is None && (r.data matches Some(d) && items_view(d@) == match json_parse(o@) {
                Some(Json::Array(a)) => a,
                _ => seq![],
            }),
            Err(e) => !r.success && r.data is None && (r.error matches Some(m) && m@ == e@),
        },
{
    match outcome {
        Ok(o) => {
            let data: Vec<JsonValue> = match parse_json(o.as_str()) {
                Some(JsonValue::Array(a)) => a,
                _ => {
                    let e: Vec<JsonValue> = Vec::new();
                    assert(items_view(e@) =~= seq![]);
                    e
                },
            };
            KanbanResult { success: true, data: Some(data), error: None }
        },
        Err(e) => KanbanResult { success: false, data: None, error: Some(e) },
    }
}

/// An action's outcome with its output read as JSON (`null` when it is not).
pub fn ok_value(outcome: Result<String, String>) -> (r: KanbanResult<JsonValue>)
    ensures
        match outcome {
            Ok(o) => r.success && r.error is None && (r.data matches Some(d) && d@ == match json_parse(o@) {
                Some(v) => v,
                None => Json::Null,
            }),
            Err(e) => !r.success && r.data is None && (r.error matches Some(m) && m@ == e@),
        },
{
    match outcome {
        Ok(o) => {
            let data = match parse_json(o.as_str()) {
                Some(v) => v,
                None => JsonValue::Null,
            };
            KanbanResult { success: true, data: Some(data), error: None }
        },
        Err(e) => KanbanResult { success: false, data: None, error: Some(e) },
    }
}

/// An action's outcome without data: `true` on success.
pub fn ok_bool(outcome: Result<String, String>) -> (r: KanbanResult<bool>)
    ensures
        match outcome {
            Ok(_) => r.success && r.error is None && r.data == Some(true),
            Err(e) => !r.success && r.data is None && (r.error matches Some(m) && m@ == e@),
        },
{
    match outcome {
        Ok(_) => KanbanResult { success: true, data: Some(true), error: None },
        Err(e) => KanbanResult { success: false, data: None, error: Some(e) },
    }
}

} // verus!
