//! Profiles: which one is active, what each one's configuration selects,
//! the records the remote host reports, and the commands that create and
//! delete them.
use vstd::prelude::*;
use crate::json::{entries_view, obj_insert, obj_insert_exec, parse_json, Json, JsonValue};
use crate::skills::{keyed_value, keyed_value_exec};
use crate::sessions::{as_str_opt, or_empty, str_of, str_or_empty};
use crate::text::chars_of;
use crate::text;
use crate::cli::strings_view;

verus! {

/// A profile as the profile list shows it.
pub struct Profile {
    pub name: String,
    pub path: String,
    pub is_default: bool,
    pub is_active: bool,
    pub model: String,
    pub provider: String,
    pub has_env: bool,
    pub has_soul: bool,
    pub skill_count: u32,
    pub gateway_running: bool,
}

/// The active profile: `activeProfile` of the desktop settings when it is
/// a string, else `default`.
pub open spec fn active_name(settings: Option<Seq<char>>) -> Seq<char> {
    let v = match settings {
        Some(t) => crate::json::json_parse(t),
        None => None,
    };
    match v {
        Some(j) => match j.get("activeProfile"@) {
            Some(Json::Str(s)) => s,
            _ => "default"@,
        },
        None => "default"@,
    }
}

pub fn active_profile_name(settings: Option<&str>) -> (r: String)
    ensures
        r@ == active_name(crate::paths::opt_view(settings)),
{
    let v = match settings {
        Some(t) => parse_json(t),
        None => None,
    };
    match v {
        Some(j) => match j.get("activeProfile") {
            Some(JsonValue::Str(s)) => text::owned(s.as_str()),
            _ => text::owned("default"),
        },
        None => text::owned("default"),
    }
}

/// The provider and model a profile's `config.yaml` selects: the values of
/// its first `provider:` and `default:` lines (empty without a file).
pub fn read_profile_metadata(config: Option<&str>) -> (r: (String, String))
    ensures
        match config {
            Some(c) => r.0@ == keyed_value(c@, "provider:"@) && r.1@ == keyed_value(c@, "default:"@),
            None => r.0@.len() == 0 && r.1@.len() == 0,
        },
{
    match config {
        Some(c) => {
            let cs = chars_of(c);
            let p = keyed_value_exec(&cs, chars_of("provider:"));
            let m = keyed_value_exec(&cs, chars_of("default:"));
            (text::string_of(p.as_slice()), text::string_of(m.as_slice()))
        },
        None => (String::new(), String::new()),
    }
}

/// A profile as the remote host reports it: default when named `default`,
/// active as reported, the skill count truncated to 32 bits.
pub fn profile_from_json(v: &JsonValue) -> (r: Profile)
    ensures
        r.name@ == str_or_empty(as_str_opt(v@.get("name"@))),
        r.path@.len() == 0,
        r.is_default == (r.name@ == "default"@),
        r.is_active == match v@.get("active"@) {
            Some(Json::Bool(b)) => b,
            _ => false,
        },
        r.model@ == str_or_empty(as_str_opt(v@.get("model"@))),
        r.provider@ == str_or_empty(as_str_opt(v@.get("provider"@))),
        !r.has_env && !r.has_soul && !r.gateway_running,
        r.skill_count as int == match v@.get("skillCount"@) {
            Some(n) => match n.as_u64() {
                Some(k) => k % 0x1_0000_0000,
                None => 0,
            },
            None => 0,
        },
{
    let name = or_empty(str_of(v.get("name")));
    let is_default = text::str_eq(name.as_str(), "default");
    let is_active = match v.get("active") {
        Some(JsonValue::Bool(b)) => *b,
        _ => false,
    };
    let skill_count: u32 = match v.get("skillCount") {
        Some(n) => match n.as_u64() {
            Some(k) => (k % 0x1_0000_0000) as u32,
            None => 0,
        },
        None => 0,
    };
    Profile {
        name,
        path: String::new(),
        is_default,
        is_active,
        model: or_empty(str_of(v.get("model"))),
        provider: or_empty(str_of(v.get("provider"))),
        has_env: false,
        has_soul: false,
        skill_count,
        gateway_running: false,
    }
}

/// A local profile's record: active when its name is the active one.
pub fn profile_record(
    name: &str,
    path: &str,
    is_default: bool,
    active: &str,
    metadata: (String, String),
    has_env: bool,
    has_soul: bool,
    skill_count: u32,
    gateway_running: bool,
) -> (r: Profile)
    ensures
        r.name@ == name@,
        r.path@ == path@,
        r.is_default == is_default,
        r.is_active == (active@ == name@),
        r.provider@ == metadata.0@,
        r.model@ == metadata.1@,
        r.has_env == has_env,
        r.has_soul == has_soul,
        r.skill_count == skill_count,
        r.gateway_running == gateway_running,
{
    let (provider, model) = metadata;
    Profile {
        name: text::owned(name),
        path: text::owned(path),
        is_default,
        is_active: text::str_eq(active, name),
        model,
        provider,
        has_env,
        has_soul,
        skill_count,
        gateway_running,
    }
}

/// `hermes profile create <name> [--clone-from default]`.
pub fn create_profile_args(name: &str, clone: Option<bool>) -> (r: Vec<String>)
    ensures
        strings_view(r@) == seq!["profile"@, "create"@, name@] + if clone == Some(true) {
            seq!["--clone-from"@, "default"@]
        } else {
            seq![]
        },
{
    let mut args: Vec<String> = Vec::new();
    args.push(text::owned("profile"));
    args.push(text::owned("create"));
    args.push(text::owned(name));
    let c = match clone { Some(b) => b, None => false };
    if c {
        args.push(text::owned("--clone-from"));
        args.push(text::owned("default"));
    }
    assert(strings_view(args@) =~= seq!["profile"@, "create"@, name@] + if clone == Some(true) {
        seq!["--clone-from"@, "default"@]
    } else {
        seq![]
    });
    args
}

/// `hermes profile delete <name>`.
pub fn delete_profile_args(name: &str) -> (r: Vec<String>)
    ensures
        strings_view(r@) == seq!["profile"@, "delete"@, name@],
{
    let mut args: Vec<String> = Vec::new();
    args.push(text::owned("profile"));
    args.push(text::owned("delete"));
    args.push(text::owned(name));
    assert(strings_view(args@) =~= seq!["profile"@, "delete"@, name@]);
    args
}

/// The desktop settings with `activeProfile` set (an object is kept and
/// extended; no settings start as an empty object).
pub fn with_active_profile(settings: Option<JsonValue>, name: &str) -> (r: JsonValue)
    requires
        match settings {
            Some(v) => v is Object || v is Null,
            None => true,
        },
    ensures
        r@ == Json::Object(obj_insert(
            match settings {
                Some(JsonValue::Object(m)) => entries_view(m@),
                _ => seq![],
            },
            "activeProfile"@,
            Json::Str(name@),
        )),
{
    let members: Vec<(String, JsonValue)> = match settings {
        Some(JsonValue::Object(m)) => m,
        _ => {
            let e: Vec<(String, JsonValue)> = Vec::new();
            assert(entries_view(e@) =~= seq![]);
            e
        },
    };
    JsonValue::Object(obj_insert_exec(members, "activeProfile", JsonValue::Str(text::owned(name))))
}

} // verus!
