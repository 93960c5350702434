//! Scheduled jobs: how a job record is read whichever way it was written,
//! which jobs are listed, and the commands that manage them.
use vstd::prelude::*;
use crate::json::{items_view, json_copy, json_parse, parse_json, Json, JsonValue};
use crate::sessions::{or_empty, str_or_empty};
use crate::settings::opt_string_view;
use crate::text;
use crate::cli::strings_view;

verus! {

/// A scheduled job.
pub struct CronJob {
    pub id: String,
    pub name: String,
    pub schedule: String,
    pub prompt: String,
    pub state: String,
    pub enabled: bool,
    pub next_run_at: Option<String>,
    pub last_run_at: Option<String>,
    pub last_status: Option<String>,
    pub last_error: Option<String>,
    pub repeat: Option<JsonValue>,
    pub deliver: Vec<String>,
    pub skills: Vec<String>,
    pub script: Option<String>,
}

/// The outcome of a job command.
pub struct CronResult {
    pub success: bool,
    pub error: Option<String>,
}

/// `a.or(b)` on two optional texts.
pub open spec fn either(a: Option<Seq<char>>, b: Option<Seq<char>>) -> Option<Seq<char>> {
    match a {
        Some(x) => Some(x),
        None => b,
    }
}

/// The strings of an array member, others skipped.
pub open spec fn string_items(items: Seq<Json>) -> Seq<Seq<char>>
    decreases items.len(),
{
    if items.len() == 0 {
        seq![]
    } else {
        let rest = string_items(items.drop_last());
        match items.last() {
            Json::Str(s) => rest.push(s),
            _ => rest,
        }
    }
}

pub open spec fn string_list(v: Json, k: Seq<char>) -> Seq<Seq<char>> {
    match v.field(k).as_array() {
        Some(a) => string_items(a),
        None => seq![],
    }
}

pub open spec fn opt_json(o: Option<JsonValue>) -> Option<Json> {
    match o {
        Some(v) => Some(v@),
        None => None,
    }
}

fn string_list_exec(v: &JsonValue, k: &str) -> (r: Vec<String>)
    ensures
        strings_view(r@) == string_list(v@, k@),
{
    let empty: Vec<JsonValue> = Vec::new();
    let items: &Vec<JsonValue> = match v.get(k) {
        Some(JsonValue::Array(a)) => a,
        _ => &empty,
    };
    let ghost iv = items_view(items@);
    assert(iv == match v@.field(k@).as_array() { Some(a) => a, None => seq![] }) by {
        assert(items_view(empty@) =~= seq![]);
    }
    let mut out: Vec<String> = Vec::new();
    let mut i: usize = 0;
    assert(iv.take(0) =~= seq![]);
    assert(strings_view(out@) =~= seq![]);
    while i < items.len()
        invariant
            i <= items.len(),
            iv == items_view(items@),
            strings_view(out@) == string_items(iv.take(i as int)),
        decreases items.len() - i,
    {
        assert(iv.take(i + 1).drop_last() =~= iv.take(i as int));
        assert(iv.take(i + 1).last() == items@[i as int]@);
        match &items[i] {
            JsonValue::Str(s) => {
                let ghost before = out@;
                let c = text::owned(s.as_str());
                out.push(c);
                assert(strings_view(out@) =~= strings_view(before).push(c@));
            },
            _ => {},
        }
        i += 1;
    }
    assert(iv.take(items.len() as int) =~= iv);
    out
}

/// A job runs unless its record says `enabled: false`.
pub open spec fn job_enabled(raw: Json) -> bool {
    match raw.field("enabled"@).as_bool() {
        Some(b) => b,
        None => true,
    }
}

/// `r` is the record `raw` read in either spelling.
pub open spec fn normalized(r: CronJob, raw: Json) -> bool {
    &&& r.id@ == str_or_empty(raw.str_field("id"@))
    &&& r.name@ == str_or_empty(raw.str_field("name"@))
    &&& r.schedule@ == str_or_empty(either(raw.str_field("schedule"@), raw.str_field("cron"@)))
    &&& r.prompt@ == str_or_empty(either(raw.str_field("prompt"@), raw.str_field("message"@)))
    &&& r.state@ == match raw.str_field("state"@) {
            Some(s) => s,
            None => "active"@,
        }
    &&& r.enabled == job_enabled(raw)
    &&& opt_string_view(r.next_run_at) == raw.str_field("next_run_at"@)
    &&& opt_string_view(r.last_run_at) == raw.str_field("last_run_at"@)
    &&& opt_string_view(r.last_status) == raw.str_field("last_status"@)
    &&& opt_string_view(r.last_error) == raw.str_field("last_error"@)
    &&& opt_json(r.repeat) == raw.get("repeat"@)
    &&& strings_view(r.deliver@) == string_list(raw, "deliver"@)
    &&& strings_view(r.skills@) == string_list(raw, "skills"@)
    &&& opt_string_view(r.script) == raw.str_field("script"@)
}

/// A job record in either spelling: `schedule` or `cron`, `prompt` or
/// `message`; active and enabled unless it says otherwise.
pub fn normalize_job(raw: &JsonValue) -> (r: CronJob)
    ensures
        normalized(r, raw@),
{
    let schedule = match raw.str_field("schedule") {
        Some(s) => Some(s),
        None => raw.str_field("cron"),
    };
    let prompt = match raw.str_field("prompt") {
        Some(s) => Some(s),
        None => raw.str_field("message"),
    };
    let state = match raw.str_field("state") {
        Some(s) => s,
        None => text::owned("active"),
    };
    let enabled = match raw.bool_field("enabled") {
        Some(b) => b,
        None => true,
    };
    let repeat = match raw.get("repeat") {
        Some(x) => Some(json_copy(x)),
        None => None,
    };
    CronJob {
        id: or_empty(raw.str_field("id")),
        name: or_empty(raw.str_field("name")),
        schedule: or_empty(schedule),
        prompt: or_empty(prompt),
        state,
        enabled,
        next_run_at: raw.str_field("next_run_at"),
        last_run_at: raw.str_field("last_run_at"),
        last_status: raw.str_field("last_status"),
        last_error: raw.str_field("last_error"),
        repeat,
        deliver: string_list_exec(raw, "deliver"),
        skills: string_list_exec(raw, "skills"),
        script: raw.str_field("script"),
    }
}

/// The job records of a text that is a JSON array (none otherwise).
pub open spec fn job_records(text: Seq<char>) -> Seq<Json> {
    match json_parse(text) {
        Some(Json::Array(a)) => a,
        _ => seq![],
    }
}

/// The records listed: all of them, or only the enabled ones.
pub open spec fn kept_records(records: Seq<Json>, all: bool) -> Seq<Json>
    decreases records.len(),
{
    if records.len() == 0 {
        seq![]
    } else {
        let rest = kept_records(records.drop_last(), all);
        if all || job_enabled(records.last()) { rest.push(records.last()) } else { rest }
    }
}

/// The listed jobs: the records of the text normalized, the disabled ones
/// only when asked for.
pub fn jobs_from_text(text: &str, include_disabled: Option<bool>) -> (r: Vec<CronJob>)
    ensures
        r@.len() == kept_records(job_records(text@), include_disabled == Some(true)).len(),
        forall|k: int| 0 <= k < r@.len() ==> normalized(#[trigger] r@[k], kept_records(job_records(text@), include_disabled == Some(true))[k]),
{
    let all = include_disabled == Some(true);
    let empty: Vec<JsonValue> = Vec::new();
    let parsed = parse_json(text);
    let items: &Vec<JsonValue> = match &parsed {
        Some(JsonValue::Array(a)) => a,
        _ => &empty,
    };
    let ghost iv = items_view(items@);
    assert(iv == job_records(text@)) by {
        assert(items_view(empty@) =~= seq![]);
    }
    let mut out: Vec<CronJob> = Vec::new();
    let mut i: usize = 0;
    assert(iv.take(0) =~= seq![]);
    while i < items.len()
        invariant
            i <= items.len(),
            all == (include_disabled == Some(true)),
            iv == items_view(items@),
            out@.len() == kept_records(iv.take(i as int), all).len(),
            forall|k: int| 0 <= k < out@.len() ==> normalized(#[trigger] out@[k], kept_records(iv.take(i as int), all)[k]),
        decreases items.len() - i,
    {
        assert(iv.take(i + 1).drop_last() =~= iv.take(i as int));
        assert(iv.take(i + 1).last() == items@[i as int]@);
        let j = normalize_job(&items[i]);
        if all || j.enabled {
            out.push(j);
        }
        i += 1;
    }
    assert(iv.take(items.len() as int) =~= iv);
    out
}

/// Where a remote API lists its jobs.
pub fn remote_jobs_url(remote_url: &str) -> (r: String)
    ensures
        r@ == crate::text::trim_end_char(remote_url@, '/') + "/api/jobs"@,
{
    let cs = text::chars_of(remote_url);
    let mut n = cs.len();
    assert(cs@.take(n as int) =~= cs@);
    while n > 0 && cs[n - 1] == '/'
        invariant
            n <= cs.len(),
            crate::text::trim_end_char(cs@, '/') == crate::text::trim_end_char(cs@.take(n as int), '/'),
        decreases n,
    {
        assert(cs@.take(n as int).drop_last() =~= cs@.take(n - 1));
        n -= 1;
    }
    let mut t = text::slice(&cs, 0, n);
    assert(t@ =~= cs@.take(n as int));
    text::push_str(&mut t, "/api/jobs");
    text::string_of(t.as_slice())
}

/// `hermes cron create --schedule <s> [--name n] [--prompt p] [--deliver d]`.
pub fn create_job_args(name: Option<&str>, schedule: &str, prompt: Option<&str>, deliver: Option<&str>) -> (r: Vec<String>)
    ensures
        strings_view(r@) == seq!["cron"@, "create"@, "--schedule"@, schedule@]
            + (match name { Some(n) => seq!["--name"@, n@], None => seq![] })
            + (match prompt { Some(p) => seq!["--prompt"@, p@], None => seq![] })
            + (match deliver { Some(d) => seq!["--deliver"@, d@], None => seq![] }),
{
    let mut args: Vec<String> = Vec::new();
    args.push(text::owned("cron"));
    args.push(text::owned("create"));
    args.push(text::owned("--schedule"));
    args.push(text::owned(schedule));
    match name { Some(n) => { args.push(text::owned("--name")); args.push(text::owned(n)); }, None => {} }
    match prompt { Some(p) => { args.push(text::owned("--prompt")); args.push(text::owned(p)); }, None => {} }
    match deliver { Some(d) => { args.push(text::owned("--deliver")); args.push(text::owned(d)); }, None => {} }
    assert(strings_view(args@) =~= seq!["cron"@, "create"@, "--schedule"@, schedule@]
        + (match name { Some(n) => seq!["--name"@, n@], None => seq![] })
        + (match prompt { Some(p) => seq!["--prompt"@, p@], None => seq![] })
        + (match deliver { Some(d) => seq!["--deliver"@, d@], None => seq![] }));
    args
}

/// `hermes cron <action> <id>` for remove, pause, resume and trigger.
pub fn job_action_args(action: &str, id: &str) -> (r: Vec<String>)
    ensures
        strings_view(r@) == seq!["cron"@, action@, id@],
{
    let mut args: Vec<String> = Vec::new();
    args.push(text::owned("cron"));
    args.push(text::owned(action));
    args.push(text::owned(id));
    assert(strings_view(args@) =~= seq!["cron"@, action@, id@]);
    args
}

/// The outcome of a job command.
pub fn cron_result(outcome: Result<String, String>) -> (r: CronResult)
    ensures
        match outcome {
            Ok(_) => r.success && r.error is None,
            Err(e) => !r.success && (r.error matches Some(m) && m@ == e@),
        },
{
    match outcome {
        Ok(_) => CronResult { success: true, error: None },
        Err(e) => CronResult { success: false, error: Some(e) },
    }
}

} // verus!
