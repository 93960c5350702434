//! Installing and maintaining the agent: whether it is installed and set
//! up, the progress shown while an installer runs, the installer script for
//! Windows, backups, memory-provider plugins and log files.
use vstd::prelude::*;
use crate::chat::{ansi_stripped, strip_ansi};
use crate::paths::{first_existing, first_found, join_path, path_join, probe_ready};
use crate::text::{chars_of, ends_with, find_sub, lines, lines_exec, starts_with, string_of, trim, trim_matches, trim_matches_exec, trim_vec};
use crate::text;
use crate::cli::strings_view;

verus! {

// ───────────────────────── records ─────────────────────────

/// Whether the agent is installed, configured, and has a usable API key.
pub struct InstallStatus {
    pub installed: bool,
    pub configured: bool,
    pub has_api_key: bool,
}

/// One step of an installation, as the progress view shows it.
pub struct InstallProgress {
    pub step: u32,
    pub total_steps: u32,
    pub title: String,
    pub detail: String,
    pub log: Option<String>,
}

/// The outcome of an installation or maintenance run.
pub struct InstallResult {
    pub success: bool,
    pub error: Option<String>,
}

/// Whether an OpenClaw installation was found, and where.
pub struct OpenClawStatus {
    pub found: bool,
    pub path: Option<String>,
}

/// The outcome of a backup: the archive's path, or the error.
pub struct BackupResult {
    pub success: bool,
    pub path: Option<String>,
    pub error: Option<String>,
}

/// An MCP server as the maintenance view lists it.
pub struct McpServer {
    pub name: String,
    pub server_type: String,
    pub enabled: bool,
    pub detail: String,
}

/// A memory-provider plugin.
pub struct MemoryProvider {
    pub name: String,
    pub description: String,
    pub installed: bool,
    pub active: bool,
    pub env_vars: Vec<String>,
}

/// The tail of a log file and where it is.
pub struct LogResult {
    pub content: String,
    pub path: String,
}

// ───────────────────────── is it set up ─────────────────────────

/// A line of an env file that sets a non-empty value: for the expected key
/// when one is given, else for any key ending in `_API_KEY`. Comments and
/// blank lines set nothing; the value loses surrounding quotes.
pub open spec fn usable_line(l: Seq<char>, expected: Option<Seq<char>>) -> bool {
    let t = trim(l);
    &&& t.len() > 0
    &&& !starts_with(t, "#"@)
    &&& match find_sub(t, "="@) {
        Some(p) => {
            let key = trim(t.take(p));
            let val = trim_matches(trim_matches(trim(t.skip(p + 1)), '"'), '\'');
            val.len() > 0 && match expected {
                Some(e) => key == e,
                None => ends_with(key, "_API_KEY"@),
            }
        },
        None => false,
    }
}

pub open spec fn has_usable_value(content: Seq<char>, expected: Option<Seq<char>>) -> bool {
    exists|i: int| 0 <= i < lines(content).len() && #[trigger] usable_line(lines(content)[i], expected)
}

fn usable_line_exec(l: &Vec<char>, expected: Option<&str>) -> (b: bool)
    ensures
        b == usable_line(l@, crate::paths::opt_view(expected)),
{
    let t = trim_vec(l);
    if t.len() == 0 {
        return false;
    }
    let hash: Vec<char> = vec!['#'];
    proof { reveal_strlit("#"); reveal_strlit("="); }
    assert(hash@ =~= "#"@);
    if text::starts_with_exec(&t, &hash) {
        return false;
    }
    let eq: Vec<char> = vec!['='];
    assert(eq@ =~= "="@);
    assert(t@.skip(0) =~= t@);
    proof { text::lemma_find_sub(t@, eq@); }
    match text::find_from(&t, &eq, 0) {
        Some(p) => {
            assert(find_sub(t@, eq@) == Some(p as int));
            assert(text::matches_at(t@, eq@, p as int));
            assert(eq@.len() == 1);
            let k = text::slice(&t, 0, p);
            assert(k@ =~= t@.take(p as int));
            let key = trim_vec(&k);
            let v = text::slice(&t, p + 1, t.len());
            assert(v@ =~= t@.skip(p + 1));
            let vt = trim_vec(&v);
            let v1 = trim_matches_exec(&vt, '"');
            let val = trim_matches_exec(&v1, '\'');
            if val.len() == 0 {
                return false;
            }
            match expected {
                Some(e) => {
                    let ec = chars_of(e);
                    text::eq_chars(&key, &ec)
                },
                None => {
                    let suffix = chars_of("_API_KEY");
                    text::ends_with_exec(&key, &suffix)
                },
            }
        },
        None => false,
    }
}

/// Whether an env file sets a usable value (for `expected_key`, or for any
/// `*_API_KEY` when none is given).
pub fn env_has_usable_value(content: &str, expected_key: Option<&str>) -> (b: bool)
    ensures
        b == has_usable_value(content@, crate::paths::opt_view(expected_key)),
{
    let c = chars_of(content);
    let ls = lines_exec(&c);
    let mut i: usize = 0;
    while i < ls.len()
        invariant
            i <= ls.len(),
            ls@.len() == lines(c@).len(),
            c@ == content@,
            forall|k: int| 0 <= k < ls@.len() ==> #[trigger] ls@[k]@ == lines(c@)[k],
            forall|k: int| 0 <= k < i ==> !usable_line(#[trigger] lines(content@)[k], crate::paths::opt_view(expected_key)),
        decreases ls.len() - i,
    {
        assert(ls@[i as int]@ == lines(c@)[i as int]);
        if usable_line_exec(&ls[i], expected_key) {
            return true;
        }
        i += 1;
    }
    false
}

/// The install check: installed when both the interpreter and the launcher
/// exist; configured when the env file or the auth store does; a usable API
/// key when the env file (read when configured) sets one.
pub fn install_status(python_exists: bool, script_exists: bool, env_file: Option<&str>, auth_exists: bool) -> (r: InstallStatus)
    ensures
        r.installed == (python_exists && script_exists),
        r.configured == (env_file is Some || auth_exists),
        r.has_api_key == match env_file {
            Some(c) => has_usable_value(c@, None),
            None => false,
        },
{
    let configured = env_file.is_some() || auth_exists;
    let has_api_key = match env_file {
        Some(c) => env_has_usable_value(c, None),
        None => false,
    };
    InstallStatus { installed: python_exists && script_exists, configured, has_api_key }
}

// ───────────────────────── progress ─────────────────────────

/// The outcome of a run: success, or the log as the error.
pub fn install_result(ok: bool, log: String) -> (r: InstallResult)
    ensures
        r.success == ok,
        ok ==> r.error is None,
        !ok ==> (r.error matches Some(e) && e@ == log@),
{
    InstallResult { success: ok, error: if ok { None } else { Some(log) } }
}

/// A run succeeded when its process did, or when the agent is in place
/// regardless.
pub fn run_succeeded(exit_ok: bool, python_exists: bool, script_exists: bool) -> (b: bool)
    ensures
        b == (exit_ok || (python_exists && script_exists)),
{
    exit_ok || (python_exists && script_exists)
}

/// The first `n` characters.
pub open spec fn first_chars(s: Seq<char>, n: int) -> Seq<char> {
    if s.len() <= n { s } else { s.take(n) }
}

/// One line of installer output: its colour codes go, it is added to the
/// log with a newline, and the progress shows its first 120 characters with
/// the whole log so far.
pub fn progress_line(log: &mut String, step: u32, total: u32, title: &str, line: &str) -> (r: InstallProgress)
    ensures
        final(log)@ == old(log)@ + ansi_stripped(line@) + "\n"@,
        r.step == step,
        r.total_steps == total,
        r.title@ == title@,
        r.detail@ == first_chars(ansi_stripped(line@), 120),
        r.log matches Some(l) && l@ == final(log)@,
{
    let stripped = strip_ansi(line);
    let mut v = chars_of(log.as_str());
    text::push_str(&mut v, stripped.as_str());
    v.push('\n');
    proof { reveal_strlit("\n"); }
    *log = string_of(v.as_slice());
    let sc = chars_of(stripped.as_str());
    let detail = if sc.len() <= 120 {
        string_of(sc.as_slice())
    } else {
        let d = text::slice(&sc, 0, 120);
        assert(d@ =~= sc@.take(120));
        string_of(d.as_slice())
    };
    InstallProgress { step, total_steps: total, title: text::owned(title), detail, log: Some(text::owned(log.as_str())) }
}

/// A progress step without output.
pub fn progress(step: u32, total: u32, title: &str, detail: &str) -> (r: InstallProgress)
    ensures
        r.step == step,
        r.total_steps == total,
        r.title@ == title@,
        r.detail@ == detail@,
        r.log is None,
{
    InstallProgress { step, total_steps: total, title: text::owned(title), detail: text::owned(detail), log: None }
}


// ───────────────────────── the Windows installer ─────────────────────────

/// The start of the PowerShell wrapper that fetches and runs the installer.
pub const WRAPPER_HEAD: &'static str = "$ErrorActionPreference = 'Stop'\ntry { [Net.ServicePointManager]::SecurityProtocol = [Net.SecurityProtocolType]::Tls12 } catch {}\n$url = 'https://raw.githubusercontent.com/NousResearch/hermes-agent/main/scripts/install.ps1'\n$installer = Join-Path $env:TEMP ('hermes-install-' + [guid]::NewGuid().ToString() + '.ps1')\n$resp = Invoke-WebRequest -Uri $url -UseBasicParsing\n$text = [string]$resp.Content\nif ($text.Length -gt 0 -and $text[0] -eq [char]0xFEFF) { $text = $text.Substring(1) }\n[System.IO.File]::WriteAllText($installer, $text, (New-Object System.Text.UTF8Encoding $true))\n& $installer -SkipSetup -HermesHome ";

/// The end of the wrapper: run, clean up, pass the exit code on.
pub const WRAPPER_TAIL: &'static str = "\n$exit = $LASTEXITCODE\nRemove-Item -Force -ErrorAction SilentlyContinue $installer\nexit $exit\n";

/// Each `'` doubled, as PowerShell's single-quoted strings want.
pub open spec fn quote_doubled(s: Seq<char>) -> Seq<char>
    decreases s.len(),
{
    if s.len() == 0 {
        seq![]
    } else if s.last() == '\'' {
        quote_doubled(s.drop_last()) + seq!['\'', '\'']
    } else {
        quote_doubled(s.drop_last()).push(s.last())
    }
}

/// A PowerShell single-quoted string literal.
pub open spec fn ps_quoted(s: Seq<char>) -> Seq<char> {
    seq!['\''] + quote_doubled(s) + seq!['\'']
}

pub fn ps_quote(s: &str) -> (r: String)
    ensures
        r@ == ps_quoted(s@),
{
    let c = chars_of(s);
    let mut out: Vec<char> = vec!['\''];
    let mut i: usize = 0;
    assert(c@.take(0) =~= seq![]);
    while i < c.len()
        invariant
            i <= c.len(),
            out@ == seq!['\''] + quote_doubled(c@.take(i as int)),
        decreases c.len() - i,
    {
        assert(c@.take(i + 1).drop_last() =~= c@.take(i as int));
        assert(c@.take(i + 1).last() == c@[i as int]);
        if c[i] == '\'' {
            out.push('\'');
            out.push('\'');
        } else {
            out.push(c[i]);
        }
        assert(out@ =~= seq!['\''] + quote_doubled(c@.take(i + 1)));
        i += 1;
    }
    out.push('\'');
    assert(c@.take(c.len() as int) =~= c@);
    assert(out@ =~= ps_quoted(s@));
    string_of(out.as_slice())
}

/// The wrapper script for a Hermes home and checkout directory.
pub fn install_wrapper(hermes_home: &str, install_dir: &str) -> (r: String)
    ensures
        r@ == WRAPPER_HEAD@ + ps_quoted(hermes_home@) + " -InstallDir "@ + ps_quoted(install_dir@) + WRAPPER_TAIL@,
{
    let h = ps_quote(hermes_home);
    let d = ps_quote(install_dir);
    let mut v = chars_of(WRAPPER_HEAD);
    text::push_str(&mut v, h.as_str());
    text::push_str(&mut v, " -InstallDir ");
    text::push_str(&mut v, d.as_str());
    text::push_str(&mut v, WRAPPER_TAIL);
    string_of(v.as_slice())
}

// ───────────────────────── engine ─────────────────────────

/// The version the launcher printed: its trimmed output, none when empty.
pub fn version_text(stdout: &str) -> (r: Option<String>)
    ensures
        match r {
            Some(v) => v@ == trim(stdout@) && v@.len() > 0,
            None => trim(stdout@).len() == 0,
        },
{
    let t = text::trim_str(stdout);
    let tc = chars_of(t.as_str());
    if tc.len() == 0 { None } else { Some(t) }
}

/// Where an OpenClaw installation may be, in the order tried.
pub open spec fn openclaw_candidates(home: Seq<char>) -> Seq<Seq<char>> {
    seq![path_join(home, ".claw3d_dir"@), path_join(home, ".clawdbot"@), path_join(home, ".moldbot"@)]
}

/// The first OpenClaw directory that exists.
pub fn check_openclaw<E: Fn(String) -> bool>(home: &str, probe: &E) -> (r: OpenClawStatus)
    requires
        probe_ready(*probe),
    ensures
        match r.path {
            Some(p) => r.found && first_found(*probe, openclaw_candidates(home@), seq![], p@) && p@.len() > 0,
            None => !r.found && first_found(*probe, openclaw_candidates(home@), seq![], seq![]),
        },
{
    let mut cands: Vec<String> = Vec::new();
    cands.push(join_path(home, ".claw3d_dir"));
    cands.push(join_path(home, ".clawdbot"));
    cands.push(join_path(home, ".moldbot"));
    assert(cands@.map_values(|c: String| c@) =~= openclaw_candidates(home@));
    proof {
        reveal_strlit(".claw3d_dir");
        reveal_strlit(".clawdbot");
        reveal_strlit(".moldbot");
    }
    let found = first_existing(cands, String::new(), probe);
    let fc = chars_of(found.as_str());
    if fc.len() > 0 {
        OpenClawStatus { found: true, path: Some(found) }
    } else {
        proof {
            // every candidate is a non-empty path, so an empty answer is the fallback
            let cs = openclaw_candidates(home@);
            assert(cs[0].len() > 0 && cs[1].len() > 0 && cs[2].len() > 0);
        }
        OpenClawStatus { found: false, path: None }
    }
}

// ───────────────────────── backup and import ─────────────────────────

/// `hermes backup [--profile <name>]`.
pub fn backup_args(profile: Option<&str>) -> (r: Vec<String>)
    ensures
        strings_view(r@) == seq!["backup"@] + match profile {
            Some(p) => seq!["--profile"@, p@],
            None => seq![],
        },
{
    let mut args: Vec<String> = Vec::new();
    args.push(text::owned("backup"));
    match profile {
        Some(p) => {
            args.push(text::owned("--profile"));
            args.push(text::owned(p));
        },
        None => {},
    }
    assert(strings_view(args@) =~= seq!["backup"@] + match profile {
        Some(p) => seq!["--profile"@, p@],
        None => seq![],
    });
    args
}

/// `hermes import <path> [--profile <name>]`.
pub fn import_args(path: &str, profile: Option<&str>) -> (r: Vec<String>)
    ensures
        strings_view(r@) == seq!["import"@, path@] + match profile {
            Some(p) => seq!["--profile"@, p@],
            None => seq![],
        },
{
    let mut args: Vec<String> = Vec::new();
    args.push(text::owned("import"));
    args.push(text::owned(path));
    match profile {
        Some(p) => {
            args.push(text::owned("--profile"));
            args.push(text::owned(p));
        },
        None => {},
    }
    assert(strings_view(args@) =~= seq!["import"@, path@] + match profile {
        Some(p) => seq!["--profile"@, p@],
        None => seq![],
    });
    args
}

/// A backup's outcome: the archive is named on the last line of the output.
pub fn backup_result(outcome: Result<String, String>) -> (r: BackupResult)
    ensures
        match outcome {
            Ok(o) => r.success && r.error is None && match r.path {
                Some(p) => lines(trim(o@)).len() > 0 && p@ == lines(trim(o@)).last(),
                None => lines(trim(o@)).len() == 0,
            },
            Err(e) => !r.success && r.path is None && (r.error matches Some(m) && m@ == e@),
        },
{
    match outcome {
        Ok(o) => {
            let c = chars_of(o.as_str());
            let t = trim_vec(&c);
            let ls = lines_exec(&t);
            let path = if ls.len() > 0 {
                let last = &ls[ls.len() - 1];
                Some(string_of(last.as_slice()))
            } else {
                None
            };
            BackupResult { success: true, path, error: None }
        },
        Err(e) => BackupResult { success: false, path: None, error: Some(e) },
    }
}

// ───────────────────────── logs ─────────────────────────

/// The log files that may be read: another name reads `agent.log`.
pub open spec fn safe_log(f: Option<Seq<char>>) -> Seq<char> {
    match f {
        Some(n) => if n == "agent.log"@ || n == "errors.log"@ || n == "gateway.log"@ { n } else { "agent.log"@ },
        None => "agent.log"@,
    }
}

pub fn log_path(hermes_home: &str, log_file: Option<&str>) -> (r: String)
    ensures
        r@ == path_join(path_join(hermes_home@, "logs"@), safe_log(crate::paths::opt_view(log_file))),
{
    let name = match log_file {
        Some(n) => if text::str_eq(n, "agent.log") || text::str_eq(n, "errors.log") || text::str_eq(n, "gateway.log") {
            n
        } else {
            "agent.log"
        },
        None => "agent.log",
    };
    crate::paths::join2(hermes_home, "logs", name)
}

/// The last `n` lines (200 when not given) joined by newlines, or the whole
/// text when it has no more lines than that.
pub open spec fn log_tail_of(content: Seq<char>, n: int) -> Seq<char> {
    let all = lines(content);
    if all.len() > n { text::join(all.skip(all.len() - n), "\n"@) } else { content }
}

pub fn log_tail(content: &str, lines_wanted: Option<u32>) -> (r: String)
    ensures
        r@ == log_tail_of(content@, match lines_wanted { Some(n) => n as int, None => 200 }),
{
    let lim: usize = match lines_wanted { Some(n) => n as usize, None => 200 };
    let c = chars_of(content);
    let ls = lines_exec(&c);
    if ls.len() > lim {
        let mut tail: Vec<Vec<char>> = Vec::new();
        let start = ls.len() - lim;
        let mut i = start;
        let ghost all = lines(c@);
        while i < ls.len()
            invariant
                start <= i <= ls.len(),
                start == ls.len() - lim,
                ls@.len() == all.len(),
                all == lines(c@),
                forall|k: int| 0 <= k < ls@.len() ==> #[trigger] ls@[k]@ == all[k],
                tail@.map_values(|p: Vec<char>| p@) =~= all.subrange(start as int, i as int),
            decreases ls.len() - i,
        {
            let ghost before = tail@;
            let row = text::slice(&ls[i], 0, ls[i].len());
            assert(row@ =~= ls@[i as int]@);
            tail.push(row);
            assert(tail@.map_values(|p: Vec<char>| p@) =~= before.map_values(|p: Vec<char>| p@).push(all[i as int]));
            i += 1;
        }
        assert(all.subrange(start as int, ls.len() as int) =~= all.skip(all.len() - lim));
        let nl: Vec<char> = vec!['\n'];
        proof { reveal_strlit("\n"); }
        assert(nl@ =~= "\n"@);
        let j = text::join_exec(&tail, &nl);
        string_of(j.as_slice())
    } else {
        text::owned(content)
    }
}


// ───────────────────────── memory providers ─────────────────────────

/// Description and settings of the memory providers the desktop knows.
pub open spec fn known_provider(name: Seq<char>) -> (Seq<char>, Seq<Seq<char>>) {
    if name == "honcho"@ { ("Honcho"@, seq!["HONCHO_API_KEY"@]) }
    else if name == "hindsight"@ { ("Hindsight"@, seq!["HINDSIGHT_API_KEY"@, "HINDSIGHT_API_URL"@, "HINDSIGHT_BANK_ID"@]) }
    else if name == "mem0"@ { ("Mem0"@, seq!["MEM0_API_KEY"@]) }
    else if name == "retaindb"@ { ("RetainDB"@, seq!["RETAINDB_API_KEY"@]) }
    else if name == "supermemory"@ { ("SuperMemory"@, seq!["SUPERMEMORY_API_KEY"@]) }
    else if name == "holographic"@ { ("Holographic"@, seq![]) }
    else if name == "openviking"@ { ("OpenViking"@, seq!["OPENVIKING_ENDPOINT"@, "OPENVIKING_API_KEY"@]) }
    else if name == "byterover"@ { ("ByteRover"@, seq!["BRV_API_KEY"@]) }
    else { (seq![], seq![]) }
}

fn strings(a: &str, b: Option<&str>, c: Option<&str>) -> (r: Vec<String>)
    ensures
        strings_view(r@) == seq![a@] + (match b { Some(x) => seq![x@], None => seq![] }) + (match c { Some(x) => seq![x@], None => seq![] }),
{
    let mut v: Vec<String> = Vec::new();
    v.push(text::owned(a));
    match b { Some(x) => v.push(text::owned(x)), None => {} }
    match c { Some(x) => v.push(text::owned(x)), None => {} }
    assert(strings_view(v@) =~= seq![a@] + (match b { Some(x) => seq![x@], None => seq![] }) + (match c { Some(x) => seq![x@], None => seq![] }));
    v
}

fn known_provider_exec(name: &str) -> (r: (String, Vec<String>))
    ensures
        (r.0@, strings_view(r.1@)) == known_provider(name@),
{
    if text::str_eq(name, "honcho") { (text::owned("Honcho"), strings("HONCHO_API_KEY", None, None)) }
    else if text::str_eq(name, "hindsight") { (text::owned("Hindsight"), strings("HINDSIGHT_API_KEY", Some("HINDSIGHT_API_URL"), Some("HINDSIGHT_BANK_ID"))) }
    else if text::str_eq(name, "mem0") { (text::owned("Mem0"), strings("MEM0_API_KEY", None, None)) }
    else if text::str_eq(name, "retaindb") { (text::owned("RetainDB"), strings("RETAINDB_API_KEY", None, None)) }
    else if text::str_eq(name, "supermemory") { (text::owned("SuperMemory"), strings("SUPERMEMORY_API_KEY", None, None)) }
    else if text::str_eq(name, "holographic") {
        let v: Vec<String> = Vec::new();
        assert(strings_view(v@) =~= Seq::<Seq<char>>::empty());
        (text::owned("Holographic"), v)
    }
    else if text::str_eq(name, "openviking") { (text::owned("OpenViking"), strings("OPENVIKING_ENDPOINT", Some("OPENVIKING_API_KEY"), None)) }
    else if text::str_eq(name, "byterover") { (text::owned("ByteRover"), strings("BRV_API_KEY", None, None)) }
    else {
        let v: Vec<String> = Vec::new();
        assert(strings_view(v@) =~= Seq::<Seq<char>>::empty());
        (String::new(), v)
    }
}

/// The memory provider the profile's configuration selects: the value of
/// its first line that starts with `provider:`.
pub open spec fn active_provider(config: Option<Seq<char>>) -> Option<Seq<char>> {
    match config {
        Some(c) => match crate::skills::keyed_line(lines(c), "provider:"@, 0) {
            Some(i) => Some(crate::skills::colon_value(lines(c)[i])),
            None => None,
        },
        None => None,
    }
}

pub fn read_active_provider(config: Option<&str>) -> (r: Option<String>)
    ensures
        crate::settings::opt_string_view(r) == active_provider(crate::paths::opt_view(config)),
{
    match config {
        Some(c) => {
            let cs = chars_of(c);
            let ls = lines_exec(&cs);
            assert(crate::skills::lines_view(ls@) =~= lines(cs@));
            let key = chars_of("provider:");
            let ghost k = key;
            let t = crate::skills::LineTest::Keyed(key);
            proof { crate::skills::lemma_keyed(lines(cs@), k, 0); }
            match crate::skills::find_line(&ls, &t) {
                Some(i) => {
                    assert(ls@[i as int]@ == lines(cs@)[i as int]);
                    let v = crate::skills::colon_value_exec(&ls[i]);
                    Some(string_of(v.as_slice()))
                },
                None => None,
            }
        },
        None => None,
    }
}

pub type MView = (Seq<char>, Seq<char>, bool, bool, Seq<Seq<char>>);

pub open spec fn provider_view(p: MemoryProvider) -> MView {
    (p.name@, p.description@, p.installed, p.active, strings_view(p.env_vars@))
}

pub open spec fn provider_views(s: Seq<MemoryProvider>) -> Seq<MView> {
    s.map_values(|p: MemoryProvider| provider_view(p))
}

/// A plugin directory's record: active when the configuration selects it.
pub open spec fn provider_of(name: Seq<char>, installed: bool, active: Option<Seq<char>>) -> MView {
    (name, known_provider(name).0, installed, active == Some(name), known_provider(name).1)
}

/// The plugin directories whose name does not start with `_`.
pub open spec fn provider_rows(dirs: Seq<(Seq<char>, bool)>, active: Option<Seq<char>>) -> Seq<MView>
    decreases dirs.len(),
{
    if dirs.len() == 0 {
        seq![]
    } else {
        let rest = provider_rows(dirs.drop_last(), active);
        let d = dirs.last();
        if starts_with(d.0, "_"@) { rest } else { rest.push(provider_of(d.0, d.1, active)) }
    }
}

/// `x` is listed before `y`: the active one first, then installed ones,
/// then by name.
pub open spec fn provider_before(x: MView, y: MView) -> bool {
    ||| (x.3 && !y.3)
    ||| (x.3 == y.3 && x.2 && !y.2)
    ||| (x.3 == y.3 && x.2 == y.2 && text::text_order(x.0, y.0) < 0)
}

pub open spec fn first_after_provider(s: Seq<MView>, x: MView) -> int
    decreases s.len(),
{
    if s.len() == 0 {
        0
    } else if provider_before(x, s[0]) {
        0
    } else {
        1 + first_after_provider(s.drop_first(), x)
    }
}

/// A stable sort by [`provider_before`].
pub open spec fn providers_sorted(s: Seq<MView>) -> Seq<MView>
    decreases s.len(),
{
    if s.len() == 0 {
        seq![]
    } else {
        let sorted = providers_sorted(s.drop_last());
        sorted.insert(first_after_provider(sorted, s.last()), s.last())
    }
}

pub proof fn lemma_first_after_provider(s: Seq<MView>, x: MView)
    ensures
        0 <= first_after_provider(s, x) <= s.len(),
    decreases s.len(),
{
    if s.len() > 0 && !provider_before(x, s[0]) {
        lemma_first_after_provider(s.drop_first(), x);
    }
}

fn provider_before_exec(x: &MemoryProvider, y: &MemoryProvider) -> (b: bool)
    ensures
        b == provider_before(provider_view(*x), provider_view(*y)),
{
    if x.active && !y.active {
        true
    } else if x.active == y.active && x.installed && !y.installed {
        true
    } else if x.active == y.active && x.installed == y.installed {
        text::text_order_exec(x.name.as_str(), y.name.as_str()) < 0
    } else {
        false
    }
}

/// The memory-provider plugins found, from each directory's name and
/// whether it holds `__init__.py`, and the profile's configuration text.
pub fn memory_providers(dirs: &Vec<(String, bool)>, config: Option<&str>) -> (r: Vec<MemoryProvider>)
    ensures
        provider_views(r@) == providers_sorted(provider_rows(
            dirs@.map_values(|d: (String, bool)| (d.0@, d.1)),
            active_provider(crate::paths::opt_view(config)),
        )),
{
    let active = read_active_provider(config);
    let ghost av = active_provider(crate::paths::opt_view(config));
    let ghost dv = dirs@.map_values(|d: (String, bool)| (d.0@, d.1));
    let mut rows: Vec<MemoryProvider> = Vec::new();
    let mut i: usize = 0;
    let under: Vec<char> = vec!['_'];
    proof { reveal_strlit("_"); }
    assert(under@ =~= "_"@);
    assert(dv.take(0) =~= seq![]);
    assert(provider_views(rows@) =~= seq![]);
    while i < dirs.len()
        invariant
            i <= dirs.len(),
            under@ == "_"@,
            crate::settings::opt_string_view(active) == av,
            dv == dirs@.map_values(|d: (String, bool)| (d.0@, d.1)),
            provider_views(rows@) == provider_rows(dv.take(i as int), av),
        decreases dirs.len() - i,
    {
        assert(dv.take(i + 1).drop_last() =~= dv.take(i as int));
        assert(dv.take(i + 1).last() == (dirs@[i as int].0@, dirs@[i as int].1));
        let name = chars_of(dirs[i].0.as_str());
        if !text::starts_with_exec(&name, &under) {
            let (desc, env) = known_provider_exec(dirs[i].0.as_str());
            let is_active = match &active {
                Some(a) => text::str_eq(a.as_str(), dirs[i].0.as_str()),
                None => false,
            };
            let ghost before = rows@;
            let p = MemoryProvider { name: text::owned(dirs[i].0.as_str()), description: desc, installed: dirs[i].1, active: is_active, env_vars: env };
            assert(provider_view(p) == provider_of(dirs@[i as int].0@, dirs@[i as int].1, av));
            rows.push(p);
            assert(provider_views(rows@) =~= provider_views(before).push(provider_view(p)));
        }
        i += 1;
    }
    assert(dv.take(dirs.len() as int) =~= dv);
    sort_providers(rows)
}

fn sort_providers(items: Vec<MemoryProvider>) -> (r: Vec<MemoryProvider>)
    ensures
        provider_views(r@) == providers_sorted(provider_views(items@)),
{
    let ghost sv = provider_views(items@);
    let mut out: Vec<MemoryProvider> = Vec::new();
    let mut rest = items;
    let ghost mut i: int = 0;
    assert(sv.skip(0) =~= sv);
    assert(provider_views(out@) =~= providers_sorted(sv.take(0)));
    while rest.len() > 0
        invariant
            0 <= i <= sv.len(),
            rest@.len() + i == sv.len(),
            provider_views(rest@) == sv.skip(i),
            provider_views(out@) == providers_sorted(sv.take(i)),
        decreases rest.len(),
    {
        let ghost old_rest = rest@;
        let x = rest.remove(0);
        proof {
            assert(provider_views(old_rest)[0] == provider_view(x));
            assert(sv.skip(i)[0] == provider_view(x));
            assert(sv.take(i + 1).drop_last() =~= sv.take(i));
            assert(sv.take(i + 1).last() == provider_view(x));
            assert forall|j: int| 0 <= j < rest@.len() implies #[trigger] provider_views(rest@)[j] == sv.skip(i + 1)[j] by {
                assert(rest@[j] == old_rest[j + 1]);
                assert(provider_views(old_rest)[j + 1] == sv.skip(i)[j + 1]);
            }
            assert(provider_views(rest@) =~= sv.skip(i + 1));
            lemma_first_after_provider(provider_views(out@), provider_view(x));
        }
        let mut k: usize = 0;
        assert(provider_views(out@).skip(0) =~= provider_views(out@));
        while k < out.len() && !provider_before_exec(&x, &out[k])
            invariant
                k <= out.len(),
                first_after_provider(provider_views(out@), provider_view(x)) == k + first_after_provider(provider_views(out@).skip(k as int), provider_view(x)),
            decreases out.len() - k,
        {
            assert(provider_views(out@).skip(k as int)[0] == provider_view(out@[k as int]));
            assert(provider_views(out@).skip(k as int).drop_first() =~= provider_views(out@).skip(k + 1));
            k += 1;
        }
        proof {
            if k < out.len() {
                assert(provider_views(out@).skip(k as int)[0] == provider_view(out@[k as int]));
            }
            assert(first_after_provider(provider_views(out@).skip(k as int), provider_view(x)) == 0);
        }
        let ghost before = provider_views(out@);
        let ghost xv = provider_view(x);
        out.insert(k, x);
        proof {
            assert(provider_views(out@) =~= before.insert(k as int, xv));
            i = i + 1;
        }
    }
    assert(sv.take(sv.len() as int) =~= sv);
    out
}

} // verus!
