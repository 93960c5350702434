//! The files and directories the desktop reads and writes, under the Hermes
//! home or a profile's directory.
use vstd::prelude::*;
use crate::paths::{join2, join3, join_path, opt_view, path_join, profile_home, resolve_profile_home};

verus! {

/// `desktop.json` under the Hermes home: the desktop's own settings.
pub fn desktop_config_path(hermes_home: &str) -> (r: String)
    ensures
        r@ == path_join(hermes_home@, "desktop.json"@),
{
    join_path(hermes_home, "desktop.json")
}

/// The same file, as the tool-path settings name it.
pub fn settings_path(hermes_home: &str) -> (r: String)
    ensures
        r@ == path_join(hermes_home@, "desktop.json"@),
{
    join_path(hermes_home, "desktop.json")
}

/// A profile's `config.yaml`.
pub fn config_yaml_path(hermes_home: &str, profile: Option<&str>) -> (r: String)
    ensures
        r@ == path_join(profile_home(hermes_home@, opt_view(profile)), "config.yaml"@),
{
    let p = resolve_profile_home(hermes_home, profile);
    join_path(p.as_str(), "config.yaml")
}

/// A profile's `.env`.
pub fn env_file_path(hermes_home: &str, profile: Option<&str>) -> (r: String)
    ensures
        r@ == path_join(profile_home(hermes_home@, opt_view(profile)), ".env"@),
{
    let p = resolve_profile_home(hermes_home, profile);
    join_path(p.as_str(), ".env")
}

/// A profile's `auth.json`.
pub fn auth_json_path(hermes_home: &str, profile: Option<&str>) -> (r: String)
    ensures
        r@ == path_join(profile_home(hermes_home@, opt_view(profile)), "auth.json"@),
{
    let p = resolve_profile_home(hermes_home, profile);
    join_path(p.as_str(), "auth.json")
}

/// `config.yaml` of the home itself, where the terminal backend is kept.
pub fn config_path(hermes_home: &str) -> (r: String)
    ensures
        r@ == path_join(hermes_home@, "config.yaml"@),
{
    join_path(hermes_home, "config.yaml")
}

/// The session database.
pub fn state_db_path(hermes_home: &str) -> (r: String)
    ensures
        r@ == path_join(hermes_home@, "state.db"@),
{
    join_path(hermes_home, "state.db")
}

/// The session database, as the session cache names it.
pub fn db_path(hermes_home: &str) -> (r: String)
    ensures
        r@ == path_join(hermes_home@, "state.db"@),
{
    join_path(hermes_home, "state.db")
}

/// The session cache file.
pub fn cache_file(hermes_home: &str) -> (r: String)
    ensures
        r@ == path_join(path_join(hermes_home@, "desktop"@), "sessions.json"@),
{
    join2(hermes_home, "desktop", "sessions.json")
}

/// The directory of the named profiles.
pub fn profiles_dir(hermes_home: &str) -> (r: String)
    ensures
        r@ == path_join(hermes_home@, "profiles"@),
{
    join_path(hermes_home, "profiles")
}

/// A profile's long-term memory file.
pub fn memory_path(hermes_home: &str, profile: Option<&str>) -> (r: String)
    ensures
        r@ == path_join(path_join(profile_home(hermes_home@, opt_view(profile)), "memories"@), "MEMORY.md"@),
{
    let p = resolve_profile_home(hermes_home, profile);
    join2(p.as_str(), "memories", "MEMORY.md")
}

/// A profile's user-profile file.
pub fn user_path(hermes_home: &str, profile: Option<&str>) -> (r: String)
    ensures
        r@ == path_join(path_join(profile_home(hermes_home@, opt_view(profile)), "memories"@), "USER.md"@),
{
    let p = resolve_profile_home(hermes_home, profile);
    join2(p.as_str(), "memories", "USER.md")
}

/// A profile's saved models.
pub fn models_path(hermes_home: &str, profile: Option<&str>) -> (r: String)
    ensures
        r@ == path_join(profile_home(hermes_home@, opt_view(profile)), "models.json"@),
{
    let p = resolve_profile_home(hermes_home, profile);
    join_path(p.as_str(), "models.json")
}

/// A profile's personality file.
pub fn soul_path(hermes_home: &str, profile: Option<&str>) -> (r: String)
    ensures
        r@ == path_join(profile_home(hermes_home@, opt_view(profile)), "SOUL.md"@),
{
    let p = resolve_profile_home(hermes_home, profile);
    join_path(p.as_str(), "SOUL.md")
}

/// A profile's installed skills.
pub fn skills_dir(hermes_home: &str, profile: Option<&str>) -> (r: String)
    ensures
        r@ == path_join(profile_home(hermes_home@, opt_view(profile)), "skills"@),
{
    let p = resolve_profile_home(hermes_home, profile);
    join_path(p.as_str(), "skills")
}

/// The skills that ship with the agent.
pub fn bundled_dir(hermes_home: &str) -> (r: String)
    ensures
        r@ == path_join(path_join(hermes_home@, "hermes-agent"@), "skills"@),
{
    join2(hermes_home, "hermes-agent", "skills")
}

/// A profile's scheduled jobs.
pub fn jobs_file(hermes_home: &str, profile: Option<&str>) -> (r: String)
    ensures
        r@ == path_join(path_join(profile_home(hermes_home@, opt_view(profile)), "cron"@), "jobs.json"@),
{
    let p = resolve_profile_home(hermes_home, profile);
    join2(p.as_str(), "cron", "jobs.json")
}

/// The MCP server list.
pub fn mcp_config_path(hermes_home: &str) -> (r: String)
    ensures
        r@ == path_join(hermes_home@, "mcp.json"@),
{
    join_path(hermes_home, "mcp.json")
}

/// Where the attachments of a session are staged.
pub fn staging_dir(hermes_home: &str, session_id: &str) -> (r: String)
    ensures
        r@ == path_join(path_join(hermes_home@, "staging"@), session_id@),
{
    join2(hermes_home, "staging", session_id)
}

/// The 3D office checkout.
pub fn office_dir(hermes_home: &str) -> (r: String)
    ensures
        r@ == path_join(hermes_home@, "claw3d"@),
{
    join_path(hermes_home, "claw3d")
}

/// A one-value setting file of the 3D office.
pub fn setting_path(hermes_home: &str, name: &str) -> (r: String)
    ensures
        r@ == path_join(hermes_home@, name@),
{
    join_path(hermes_home, name)
}

/// The agent's checkout.
pub fn hermes_repo(hermes_home: &str) -> (r: String)
    ensures
        r@ == path_join(hermes_home@, "hermes-agent"@),
{
    join_path(hermes_home, "hermes-agent")
}

/// The agent's virtual environment.
pub fn hermes_venv(hermes_home: &str) -> (r: String)
    ensures
        r@ == path_join(path_join(hermes_home@, "hermes-agent"@), "venv"@),
{
    join2(hermes_home, "hermes-agent", "venv")
}

/// The environment's Python: `Scripts/python.exe` on Windows, `bin/python` elsewhere.
pub fn hermes_python(hermes_home: &str, windows: bool) -> (r: String)
    ensures
        r@ == (if windows {
            path_join(path_join(path_join(path_join(hermes_home@, "hermes-agent"@), "venv"@), "Scripts"@), "python.exe"@)
        } else {
            path_join(path_join(path_join(path_join(hermes_home@, "hermes-agent"@), "venv"@), "bin"@), "python"@)
        }),
{
    let v = hermes_venv(hermes_home);
    if windows {
        join2(v.as_str(), "Scripts", "python.exe")
    } else {
        join2(v.as_str(), "bin", "python")
    }
}

/// The agent's launcher: `Scripts/hermes.exe` in the environment on Windows,
/// the `hermes` script of the checkout elsewhere.
pub fn hermes_script(hermes_home: &str, windows: bool) -> (r: String)
    ensures
        r@ == (if windows {
            path_join(path_join(path_join(path_join(hermes_home@, "hermes-agent"@), "venv"@), "Scripts"@), "hermes.exe"@)
        } else {
            path_join(path_join(hermes_home@, "hermes-agent"@), "hermes"@)
        }),
{
    if windows {
        let v = hermes_venv(hermes_home);
        join2(v.as_str(), "Scripts", "hermes.exe")
    } else {
        join2(hermes_home, "hermes-agent", "hermes")
    }
}

} // verus!
