//! The desktop's own settings (`desktop.json`): tool paths and the
//! interface language; and the small panels that read the agent's files:
//! context files, the curator's report, usage counts and plugins.
use vstd::prelude::*;
use crate::json::{entries_view, items_view, json_parse, obj_get, obj_insert, obj_insert_exec, parse_json, Json, JsonValue};
use crate::sessions::{as_str_opt, or_empty, str_of, str_or_empty};
use crate::paths::{first_found, join_path, path_join, probe_ready, probed};
use crate::text::{chars_of, split, starts_with, string_of, trim};
use crate::text;
use crate::cli::strings_view;

verus! {

// ───────────────────────── settings ─────────────────────────

/// A text setting: the member `key` of the settings when it is a string.
pub open spec fn setting_of(settings: Option<Seq<char>>, key: Seq<char>) -> Seq<char> {
    match settings {
        Some(t) => match json_parse(t) {
            Some(v) => match v.get(key) {
                Some(Json::Str(s)) => s,
                _ => seq![],
            },
            None => seq![],
        },
        None => seq![],
    }
}

/// Reads a text setting (empty when missing).
pub fn read_setting(settings: Option<&str>, key: &str) -> (r: String)
    ensures
        r@ == setting_of(crate::paths::opt_view(settings), key@),
{
    match settings {
        Some(t) => match parse_json(t) {
            Some(v) => match v.get(key) {
                Some(JsonValue::Str(s)) => text::owned(s.as_str()),
                _ => String::new(),
            },
            None => String::new(),
        },
        None => String::new(),
    }
}

/// The settings with `key` set: an object is kept and extended; no
/// settings (or `null`) start as an empty object.
pub fn with_setting(settings: Option<JsonValue>, key: &str, value: JsonValue) -> (r: JsonValue)
    requires
        match settings {
            Some(v) => v is Object || v is Null,
            None => true,
        },
    ensures
        r@ == Json::Object(obj_insert(
            match settings {
                Some(JsonValue::Object(m)) => entries_view(m@),
                _ => seq![],
            },
            key@,
            value@,
        )),
{
    let members: Vec<(String, JsonValue)> = match settings {
        Some(JsonValue::Object(m)) => m,
        _ => {
            let e: Vec<(String, JsonValue)> = Vec::new();
            assert(entries_view(e@) =~= seq![]);
            e
        },
    };
    JsonValue::Object(obj_insert_exec(members, key, value))
}

/// The configured tool paths: `{"git": <gitPath>, "npm": <npmPath>}`.
pub fn get_tool_paths(settings: Option<&str>) -> (r: JsonValue)
    ensures
        r@ == Json::Object(seq![
            ("git"@, Json::Str(setting_of(crate::paths::opt_view(settings), "gitPath"@))),
            ("npm"@, Json::Str(setting_of(crate::paths::opt_view(settings), "npmPath"@))),
        ]),
{
    let g = read_setting(settings, "gitPath");
    let n = read_setting(settings, "npmPath");
    let m: Vec<(String, JsonValue)> = vec![(text::owned("git"), JsonValue::Str(g)), (text::owned("npm"), JsonValue::Str(n))];
    let r = JsonValue::Object(m);
    assert(entries_view(m@) =~= seq![
        ("git"@, Json::Str(setting_of(crate::paths::opt_view(settings), "gitPath"@))),
        ("npm"@, Json::Str(setting_of(crate::paths::opt_view(settings), "npmPath"@))),
    ]);
    r
}

/// A saved text setting reads back: when the settings text read after a
/// save is the object that `with_setting` made, the setting is the value
/// saved. So a non-empty saved `gitPath` is what `resolve_git_path`
/// returns, before any bundled Git or the plain `git`.
pub proof fn law_saved_setting_read_back(settings: Option<Json>, key: Seq<char>, value: Seq<char>, text: Seq<char>)
    requires
        json_parse(text) == Some(
            Json::Object(
                obj_insert(
                    match settings {
                        Some(Json::Object(m)) => m,
                        _ => seq![],
                    },
                    key,
                    Json::Str(value),
                ),
            ),
        ),
    ensures
        setting_of(Some(text), key) == value,
{
    let m = match settings {
        Some(Json::Object(m)) => m,
        _ => seq![],
    };
    crate::json::lemma_obj_insert_get(m, key, Json::Str(value), key);
}

// ───────────────────────── language ─────────────────────────

/// The interface languages.
pub open spec fn app_locale(l: Seq<char>) -> bool {
    l == "en"@ || l == "es"@ || l == "id"@ || l == "ja"@ || l == "pt-BR"@ || l == "pt-PT"@
        || l == "zh-CN"@ || l == "zh-TW"@
}

pub fn is_app_locale(l: &str) -> (b: bool)
    ensures
        b == app_locale(l@),
{
    text::str_eq(l, "en") || text::str_eq(l, "es") || text::str_eq(l, "id") || text::str_eq(l, "ja")
        || text::str_eq(l, "pt-BR") || text::str_eq(l, "pt-PT") || text::str_eq(l, "zh-CN")
        || text::str_eq(l, "zh-TW")
}

/// The `locale` the settings read as `{ "locale": ... }` give: a string, or
/// none (absent or `null`); `None` when they do not read that way.
pub open spec fn locale_field(v: Json) -> Option<Option<Seq<char>>> {
    match v {
        Json::Object(m) => match obj_get(m, "locale"@) {
            None => Some(None),
            Some(Json::Null) => Some(None),
            Some(Json::Str(s)) => Some(Some(s)),
            _ => None,
        },
        Json::Array(a) => if a.len() == 1 {
            match a[0] {
                Json::Null => Some(None),
                Json::Str(s) => Some(Some(s)),
                _ => None,
            }
        } else {
            None
        },
        _ => None,
    }
}

/// The saved language when it is one of the interface's.
pub open spec fn saved_locale(settings: Option<Seq<char>>) -> Option<Seq<char>> {
    match settings {
        Some(t) => match json_parse(t) {
            Some(v) => match locale_field(v) {
                Some(Some(l)) => if app_locale(l) { Some(l) } else { None },
                _ => None,
            },
            None => None,
        },
        None => None,
    }
}

fn locale_field_exec(v: &JsonValue) -> (r: Option<Option<String>>)
    ensures
        match r {
            Some(Some(s)) => locale_field(v@) == Some(Some(s@)),
            Some(None) => locale_field(v@) == Some(None::<Seq<char>>),
            None => locale_field(v@) is None,
        },
{
    match v {
        JsonValue::Object(_) => match v.get("locale") {
            None => Some(None),
            Some(JsonValue::Null) => Some(None),
            Some(JsonValue::Str(s)) => Some(Some(text::owned(s.as_str()))),
            _ => None,
        },
        JsonValue::Array(a) => {
            if a.len() == 1 {
                assert(items_view(a@)[0] == a@[0]@);
                match &a[0] {
                    JsonValue::Null => Some(None),
                    JsonValue::Str(s) => Some(Some(text::owned(s.as_str()))),
                    _ => None,
                }
            } else {
                None
            }
        },
        _ => None,
    }
}

/// The language to show: the one in use, else the saved one (which is then
/// in use), else English. The second value says whether to keep the
/// returned language as the one in use.
pub fn get_locale(current: &str, settings: Option<&str>) -> (r: (String, bool))
    ensures
        current@.len() > 0 ==> r.0@ == current@ && !r.1,
        current@.len() == 0 ==> match saved_locale(crate::paths::opt_view(settings)) {
            Some(l) => r.0@ == l && r.1,
            None => r.0@ == "en"@ && !r.1,
        },
{
    let cc = chars_of(current);
    if cc.len() > 0 {
        return (text::owned(current), false);
    }
    let v = match settings {
        Some(t) => parse_json(t),
        None => None,
    };
    match v {
        Some(j) => match locale_field_exec(&j) {
            Some(Some(l)) => {
                if is_app_locale(l.as_str()) {
                    (l, true)
                } else {
                    (text::owned("en"), false)
                }
            },
            _ => (text::owned("en"), false),
        },
        None => (text::owned("en"), false),
    }
}

/// Changing the language: refused unless it is one of the interface's.
pub fn check_locale(locale: &str) -> (r: Result<(), String>)
    ensures
        app_locale(locale@) ==> r is Ok,
        !app_locale(locale@) ==> (r matches Err(e) && e@ == "Unsupported locale: "@ + locale@),
{
    if is_app_locale(locale) {
        Ok(())
    } else {
        Err(text::concat2("Unsupported locale: ", locale))
    }
}

// ───────────────────────── context files ─────────────────────────

/// A context file: its name and text.
pub struct ContextFile {
    pub name: String,
    pub content: String,
}

/// The context files the editor offers, in order.
pub open spec fn context_names() -> Seq<Seq<char>> {
    seq!["AGENTS.md"@, "PROJECT.md"@, "CONTEXT.md"@]
}

/// The names of `names` whose flag in `found` is set, in order.
pub open spec fn picked(names: Seq<Seq<char>>, found: Seq<bool>) -> Seq<Seq<char>>
    decreases names.len(),
{
    if names.len() == 0 || found.len() == 0 {
        Seq::empty()
    } else {
        let rest = picked(names.drop_last(), found.drop_last());
        if found.last() {
            rest.push(names.last())
        } else {
            rest
        }
    }
}

/// The names whose file exists in the Hermes home, in order: each name is
/// probed once, and those the probe found are listed.
pub fn list_context_files<E: Fn(String) -> bool>(hermes_home: &str, probe: &E) -> (r: Vec<String>)
    requires
        probe_ready(*probe),
    ensures
        exists|found: Seq<bool>|
            {
                &&& found.len() == context_names().len()
                &&& forall|k: int|
                    0 <= k < found.len() ==> probed(
                        *probe,
                        path_join(hermes_home@, context_names()[k]),
                        #[trigger] found[k],
                    )
                &&& strings_view(r@) == picked(context_names(), found)
            },
{
    let names: [&str; 3] = ["AGENTS.md", "PROJECT.md", "CONTEXT.md"];
    let mut out: Vec<String> = Vec::new();
    let ghost mut found: Seq<bool> = Seq::empty();
    let mut i: usize = 0;
    while i < 3
        invariant
            i <= 3,
            found.len() == i,
            probe_ready(*probe),
            names@ == seq!["AGENTS.md", "PROJECT.md", "CONTEXT.md"],
            forall|k: int|
                0 <= k < found.len() ==> probed(
                    *probe,
                    path_join(hermes_home@, context_names()[k]),
                    #[trigger] found[k],
                ),
            strings_view(out@) == picked(context_names().take(i as int), found),
        decreases 3 - i,
    {
        let name = names[i];
        let p = join_path(hermes_home, name);
        let ghost pv = p@;
        let hit = probe(p);
        proof {
            assert(context_names()[i as int] == name@);
            assert(probed(*probe, pv, hit));
        }
        let ghost old_out = out@;
        if hit {
            let s = text::owned(name);
            out.push(s);
        }
        proof {
            let nf = found.push(hit);
            let nt = context_names().take(i as int + 1);
            assert(nt.drop_last() =~= context_names().take(i as int));
            assert(nf.drop_last() =~= found);
            assert(nt.last() == name@);
            assert(strings_view(out@) =~= picked(nt, nf));
            found = nf;
        }
        i += 1;
    }
    proof {
        assert(context_names().take(3) =~= context_names());
    }
    out
}

/// A context file's name made safe: path separators, characters Windows
/// refuses and (when reading) dots become `_`.
pub open spec fn safe_context_char(c: char, dots: bool) -> char {
    if c == '/' || c == '\\' || c == ':' || c == '*' || c == '?' || c == '"' || c == '<' || c == '>' || c == '|' || (dots && c == '.') {
        '_'
    } else {
        c
    }
}

pub fn safe_context_name(name: &str, dots: bool) -> (r: String)
    ensures
        r@ == name@.map_values(|c: char| safe_context_char(c, dots)),
{
    let cs = chars_of(name);
    let mut out: Vec<char> = Vec::new();
    let mut i: usize = 0;
    while i < cs.len()
        invariant
            i <= cs.len(),
            out@ =~= cs@.take(i as int).map_values(|c: char| safe_context_char(c, dots)),
        decreases cs.len() - i,
    {
        let c = cs[i];
        let d = if c == '/' || c == '\\' || c == ':' || c == '*' || c == '?' || c == '"' || c == '<' || c == '>' || c == '|' || (dots && c == '.') {
            '_'
        } else {
            c
        };
        out.push(d);
        i += 1;
    }
    assert(cs@.take(cs.len() as int) =~= cs@);
    string_of(out.as_slice())
}

/// Where a context file is on the remote host.
pub fn remote_context_path(safe: &str) -> (r: String)
    ensures
        r@ == "~/.hermes/"@ + safe@,
{
    text::concat2("~/.hermes/", safe)
}

/// The names a remote listing gives: its string items.
pub fn context_names_from_json(v: &JsonValue) -> (r: Vec<String>)
    ensures
        strings_view(r@) == match v@ {
            Json::Array(a) => crate::cron::string_items(a),
            _ => seq![],
        },
{
    let mut out: Vec<String> = Vec::new();
    match v {
        JsonValue::Array(a) => {
            let ghost iv = items_view(a@);
            let mut i: usize = 0;
            assert(iv.take(0) =~= seq![]);
            assert(strings_view(out@) =~= seq![]);
            while i < a.len()
                invariant
                    i <= a.len(),
                    iv == items_view(a@),
                    strings_view(out@) == crate::cron::string_items(iv.take(i as int)),
                decreases a.len() - i,
            {
                assert(iv.take(i + 1).drop_last() =~= iv.take(i as int));
                assert(iv.take(i + 1).last() == a@[i as int]@);
                match &a[i] {
                    JsonValue::Str(s) => {
                        let ghost before = out@;
                        let c = text::owned(s.as_str());
                        out.push(c);
                        assert(strings_view(out@) =~= strings_view(before).push(c@));
                    },
                    _ => {},
                }
                i += 1;
            }
            assert(iv.take(a.len() as int) =~= iv);
        },
        _ => {
            assert(strings_view(out@) =~= seq![]);
        },
    }
    out
}

// ───────────────────────── curator ─────────────────────────

/// Which curator report is shown.
pub enum ReportChoice {
    /// There is no report directory: show this message key.
    NoReportsKey(String),
    /// Show the report file.
    Report,
    /// Show the last run's record.
    Run,
    /// Show this text.
    Text(String),
}

/// The curator's report: `REPORT.md`, else `run.json`, of its log directory.
pub fn curator_report_choice(dir_exists: bool, report_exists: bool, run_exists: bool) -> (r: ReportChoice)
    ensures
        !dir_exists ==> (r matches ReportChoice::NoReportsKey(k) && k@ == "curator.noReportsYet"@),
        dir_exists && report_exists ==> r is Report,
        dir_exists && !report_exists && run_exists ==> r is Run,
        dir_exists && !report_exists && !run_exists ==> (r matches ReportChoice::Text(t) && t@ == "No curator reports yet"@),
{
    if !dir_exists {
        ReportChoice::NoReportsKey(text::owned("curator.noReportsYet"))
    } else if report_exists {
        ReportChoice::Report
    } else if run_exists {
        ReportChoice::Run
    } else {
        ReportChoice::Text(text::owned("No curator reports yet"))
    }
}

// ───────────────────────── usage ─────────────────────────

/// The usage dashboard's counts.
pub struct UsageStats {
    pub total_sessions: i64,
    pub total_messages: i64,
    pub active_skills: i64,
    pub memory_entries: i64,
}

pub open spec fn count_nonblank(ps: Seq<Seq<char>>) -> nat
    decreases ps.len(),
{
    if ps.len() == 0 {
        0
    } else {
        count_nonblank(ps.drop_last()) + if trim(ps.last()).len() > 0 { 1nat } else { 0nat }
    }
}

/// The memory entries: the parts between `§` separator lines that are not blank.
pub open spec fn memory_entry_count(text: Seq<char>) -> nat {
    count_nonblank(split(text, "\n\u{a7}\n"@))
}

pub fn count_memory_entries(text_: &str) -> (r: i64)
    ensures
        r == memory_entry_count(text_@) as i64,
{
    let c = chars_of(text_);
    let sep: Vec<char> = vec!['\n', '\u{a7}', '\n'];
    proof { reveal_strlit("\n\u{a7}\n"); }
    assert(sep@ =~= "\n\u{a7}\n"@);
    let parts = text::split_exec(&c, &sep);
    let ghost pv = split(c@, sep@);
    let mut n: usize = 0;
    let mut i: usize = 0;
    assert(pv.take(0) =~= seq![]);
    while i < parts.len()
        invariant
            i <= parts.len(),
            parts@.len() == pv.len(),
            pv == split(c@, sep@),
            forall|k: int| 0 <= k < parts@.len() ==> #[trigger] parts@[k]@ == pv[k],
            n == count_nonblank(pv.take(i as int)),
            n <= i,
        decreases parts.len() - i,
    {
        assert(pv.take(i + 1).drop_last() =~= pv.take(i as int));
        assert(pv.take(i + 1).last() == parts@[i as int]@);
        let t = text::trim_vec(&parts[i]);
        if t.len() > 0 {
            n = n + 1;
        }
        i += 1;
    }
    assert(pv.take(parts.len() as int) =~= pv);
    n as i64
}

// ───────────────────────── plugins ─────────────────────────

/// An agent plugin.
pub struct PluginInfo {
    pub name: String,
    pub description: String,
    pub installed: bool,
    pub enabled: bool,
}

/// A plugin as the remote host reports it: installed and enabled unless it
/// says otherwise.
pub fn plugin_from_json(v: &JsonValue) -> (r: PluginInfo)
    ensures
        r.name@ == str_or_empty(as_str_opt(v@.get("name"@))),
        r.description@ == str_or_empty(as_str_opt(v@.get("description"@))),
        r.installed == match v@.get("installed"@) {
            Some(Json::Bool(b)) => b,
            _ => true,
        },
        r.enabled == match v@.get("enabled"@) {
            Some(Json::Bool(b)) => b,
            _ => true,
        },
{
    let installed = match v.get("installed") {
        Some(JsonValue::Bool(b)) => *b,
        _ => true,
    };
    let enabled = match v.get("enabled") {
        Some(JsonValue::Bool(b)) => *b,
        _ => true,
    };
    PluginInfo { name: or_empty(str_of(v.get("name"))), description: or_empty(str_of(v.get("description"))), installed, enabled }
}

/// A plugin directory's record, unless its name starts with `_` or `.`:
/// enabled, without a description.
pub fn local_plugin(name: &str, installed: bool) -> (r: Option<PluginInfo>)
    ensures
        (starts_with(name@, "_"@) || starts_with(name@, "."@)) ==> r is None,
        !(starts_with(name@, "_"@) || starts_with(name@, "."@)) ==> (r matches Some(p)
            && p.name@ == name@ && p.description@.len() == 0 && p.installed == installed && p.enabled),
{
    let c = chars_of(name);
    let u: Vec<char> = vec!['_'];
    let d: Vec<char> = vec!['.'];
    proof { reveal_strlit("_"); reveal_strlit("."); }
    assert(u@ =~= "_"@);
    assert(d@ =~= "."@);
    if text::starts_with_exec(&c, &u) || text::starts_with_exec(&c, &d) {
        None
    } else {
        Some(PluginInfo { name: text::owned(name), description: String::new(), installed, enabled: true })
    }
}

} // verus!
