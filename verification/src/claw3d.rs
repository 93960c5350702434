//! The 3D office: where npm is found, the saved port and gateway address,
//! the status panel, and the commands that start its dev server and adapter.
use vstd::prelude::*;
use crate::paths::{first_existing, first_found, join2, join3, join4, join_path, path_join, probe_ready};
use crate::text::{chars_of, starts_with, string_of, text_order, text_order_exec, trim};
use crate::text;
use crate::cli::{parse_u32, parse_u32_exec, strings_view};
use crate::kv::StrMap;

verus! {

/// The status panel of the 3D office.
pub struct Claw3dStatus {
    pub cloned: bool,
    pub installed: bool,
    pub dev_server_running: bool,
    pub adapter_running: bool,
    pub port: u16,
    pub port_in_use: bool,
    pub ws_url: String,
    pub running: bool,
    pub error: String,
    pub remote_url: Option<String>,
    pub remote_source: Option<String>,
}

/// The outcome of starting everything.
pub struct Claw3dResult {
    pub success: bool,
    pub error: Option<String>,
}

pub const DEV_PID_FILE: &'static str = "claw3d-dev.pid";
pub const ADAPTER_PID_FILE: &'static str = "claw3d-adapter.pid";
pub const PORT_FILE: &'static str = "claw3d-port";
pub const WS_URL_FILE: &'static str = "claw3d-ws-url";
pub const DEFAULT_PORT: u16 = 3000;
pub const DEFAULT_WS_URL: &'static str = "ws://localhost:18789";

// ───────────────────────── saved settings ─────────────────────────

/// `u16::from_str`: an optional `+`, then decimal digits, at most 65535.
pub open spec fn parse_u16(s: Seq<char>) -> Option<int> {
    match parse_u32(s) {
        Some(n) => if n <= 65535 { Some(n) } else { None },
        None => None,
    }
}

/// The saved port: the file's trimmed text as a port, else 3000.
pub fn saved_port(file: Option<String>) -> (r: u16)
    ensures
        r == match file {
            Some(f) => match parse_u16(trim(f@)) {
                Some(n) => n,
                None => 3000,
            },
            None => 3000,
        },
{
    match file {
        Some(f) => {
            let c = chars_of(f.as_str());
            let t = text::trim_vec(&c);
            match parse_u32_exec(&t) {
                Some(n) => if n <= 65535 { n as u16 } else { DEFAULT_PORT },
                None => DEFAULT_PORT,
            }
        },
        None => DEFAULT_PORT,
    }
}

/// The saved gateway address: the file's trimmed text when not empty, else
/// the default.
pub fn saved_ws_url(file: Option<String>) -> (r: String)
    ensures
        r@ == match file {
            Some(f) => if trim(f@).len() > 0 { trim(f@) } else { DEFAULT_WS_URL@ },
            None => DEFAULT_WS_URL@,
        },
{
    match file {
        Some(f) => {
            let t = text::trim_str(f.as_str());
            let tc = chars_of(t.as_str());
            if tc.len() > 0 { t } else { text::owned(DEFAULT_WS_URL) }
        },
        None => text::owned(DEFAULT_WS_URL),
    }
}

/// A pid file's process id: its trimmed text as a `u32`.
pub fn read_pid(file: Option<String>) -> (r: Option<u32>)
    ensures
        match r {
            Some(n) => file matches Some(f) && parse_u32(trim(f@)) == Some(n as int),
            None => match file {
                Some(f) => parse_u32(trim(f@)) is None,
                None => true,
            },
        },
{
    match file {
        Some(f) => {
            let c = chars_of(f.as_str());
            let t = text::trim_vec(&c);
            parse_u32_exec(&t)
        },
        None => None,
    }
}

// ───────────────────────── status ─────────────────────────

/// The status panel from what was found: running when either process is.
pub fn claw3d_status(
    cloned: bool,
    has_node_modules: bool,
    dev_alive: bool,
    adapter_alive: bool,
    port: u16,
    port_in_use: bool,
    ws_url: String,
) -> (r: Claw3dStatus)
    ensures
        r.cloned == cloned,
        r.installed == (cloned && has_node_modules),
        r.dev_server_running == dev_alive,
        r.adapter_running == adapter_alive,
        r.port == port,
        r.port_in_use == port_in_use,
        r.ws_url@ == ws_url@,
        r.running == (dev_alive || adapter_alive),
        r.error@ == Seq::<char>::empty(),
        r.remote_url is None,
        r.remote_source is None,
{
    Claw3dStatus {
        cloned,
        installed: cloned && has_node_modules,
        dev_server_running: dev_alive,
        adapter_running: adapter_alive,
        port,
        port_in_use,
        ws_url,
        running: dev_alive || adapter_alive,
        error: String::new(),
        remote_url: None,
        remote_source: None,
    }
}

// ───────────────────────── starting ─────────────────────────

/// What a start request does.
pub enum StartStep {
    /// The office is not cloned: the request fails with this message.
    Refuse(String),
    /// The process is already running.
    AlreadyRunning,
    /// Start it.
    Start,
}

/// Refused before setup; nothing to do while the recorded process lives.
pub fn start_step(cloned: bool, recorded_alive: bool) -> (r: StartStep)
    ensures
        !cloned ==> (r matches StartStep::Refuse(m) && m@ == "Claw3D not cloned. Run setup first."@),
        cloned && recorded_alive ==> r is AlreadyRunning,
        cloned && !recorded_alive ==> r is Start,
{
    if !cloned {
        return StartStep::Refuse(text::owned("Claw3D not cloned. Run setup first."));
    }
    if recorded_alive {
        StartStep::AlreadyRunning
    } else {
        StartStep::Start
    }
}

/// The dev server: `npm run dev` with the port, gateway address and
/// development mode in its environment.
pub fn dev_command(port: u16, ws_url: &str) -> (r: (Vec<String>, StrMap))
    ensures
        strings_view(r.0@) == seq!["run"@, "dev"@],
        r.1@ == map!["PORT"@ => text::dec_text(port as nat), "NEXT_PUBLIC_WS_URL"@ => ws_url@, "NODE_ENV"@ => "development"@],
{
    let mut args: Vec<String> = Vec::new();
    args.push(text::owned("run"));
    args.push(text::owned("dev"));
    assert(strings_view(args@) =~= seq!["run"@, "dev"@]);
    let mut env = StrMap::new();
    env.insert(text::owned("PORT"), text::dec_string(port as u64));
    env.insert(text::owned("NEXT_PUBLIC_WS_URL"), text::owned(ws_url));
    env.insert(text::owned("NODE_ENV"), text::owned("development"));
    proof {
        reveal_strlit("PORT");
        reveal_strlit("NEXT_PUBLIC_WS_URL");
        reveal_strlit("NODE_ENV");
    }
    (args, env)
}

/// The adapter: `npm run adapter -- <gateway address>` in production mode.
pub fn adapter_command(ws_url: &str) -> (r: (Vec<String>, StrMap))
    ensures
        strings_view(r.0@) == seq!["run"@, "adapter"@, "--"@, ws_url@],
        r.1@ == map!["NODE_ENV"@ => "production"@],
{
    let mut args: Vec<String> = Vec::new();
    args.push(text::owned("run"));
    args.push(text::owned("adapter"));
    args.push(text::owned("--"));
    args.push(text::owned(ws_url));
    assert(strings_view(args@) =~= seq!["run"@, "adapter"@, "--"@, ws_url@]);
    let mut env = StrMap::new();
    env.insert(text::owned("NODE_ENV"), text::owned("production"));
    (args, env)
}

/// Starting everything: the dev server first, then the adapter; the first
/// error is reported.
pub fn start_all_result(dev: Result<bool, String>, adapter: Option<Result<bool, String>>) -> (r: Claw3dResult)
    requires
        dev is Ok ==> adapter is Some,
    ensures
        match dev {
            Err(e) => !r.success && (r.error matches Some(m) && m@ == e@),
            Ok(_) => match adapter {
                Some(Ok(_)) => r.success && r.error is None,
                Some(Err(e)) => !r.success && (r.error matches Some(m) && m@ == e@),
                None => false,
            },
        },
{
    match dev {
        Err(e) => Claw3dResult { success: false, error: Some(e) },
        Ok(_) => match adapter {
            Some(Ok(_)) => Claw3dResult { success: true, error: None },
            Some(Err(e)) => Claw3dResult { success: false, error: Some(e) },
            None => Claw3dResult { success: false, error: None },
        },
    }
}

/// The logs of the dev server: each `.log` file as `--- name ---`, its text
/// and a newline; `No logs` when there are none.
pub open spec fn log_section(name: Seq<char>, content: Seq<char>) -> Seq<char> {
    "--- "@ + name + " ---\n"@ + content + "\n"@
}

pub open spec fn log_sections(files: Seq<(Seq<char>, Seq<char>)>) -> Seq<char>
    decreases files.len(),
{
    if files.len() == 0 {
        seq![]
    } else {
        let rest = log_sections(files.drop_last());
        let f = files.last();
        if text::ends_with(f.0, ".log"@) {
            rest + log_section(f.0, f.1)
        } else {
            rest
        }
    }
}

pub fn claw3d_logs(files: &Vec<(String, String)>) -> (r: String)
    ensures
        ({
            let s = log_sections(files@.map_values(|f: (String, String)| (f.0@, f.1@)));
            r@ == if s.len() == 0 { "No logs"@ } else { s }
        }),
{
    let ghost fv = files@.map_values(|f: (String, String)| (f.0@, f.1@));
    let suffix = chars_of(".log");
    let mut out: Vec<char> = Vec::new();
    let mut i: usize = 0;
    assert(fv.take(0) =~= seq![]);
    while i < files.len()
        invariant
            i <= files.len(),
            suffix@ == ".log"@,
            fv == files@.map_values(|f: (String, String)| (f.0@, f.1@)),
            out@ == log_sections(fv.take(i as int)),
        decreases files.len() - i,
    {
        let name = chars_of(files[i].0.as_str());
        assert(fv.take(i + 1).drop_last() =~= fv.take(i as int));
        assert(fv.take(i + 1).last() == (files@[i as int].0@, files@[i as int].1@));
        if text::ends_with_exec(&name, &suffix) {
            let ghost before = out@;
            text::push_str(&mut out, "--- ");
            text::push_str(&mut out, files[i].0.as_str());
            text::push_str(&mut out, " ---\n");
            text::push_str(&mut out, files[i].1.as_str());
            text::push_str(&mut out, "\n");
            assert(out@ =~= before + log_section(files@[i as int].0@, files@[i as int].1@));
        }
        i += 1;
    }
    assert(fv.take(files.len() as int) =~= fv);
    if out.len() == 0 {
        text::owned("No logs")
    } else {
        string_of(out.as_slice())
    }
}


// ───────────────────────── finding npm ─────────────────────────

pub open spec fn npm_name(windows: bool) -> Seq<char> {
    if windows { "npm.cmd"@ } else { "npm"@ }
}

/// The names of the node versions nvm installed: those that start with `v`.
pub open spec fn v_names(s: Seq<Seq<char>>) -> Seq<Seq<char>>
    decreases s.len(),
{
    if s.len() == 0 {
        seq![]
    } else if starts_with(s.last(), "v"@) {
        v_names(s.drop_last()).push(s.last())
    } else {
        v_names(s.drop_last())
    }
}

/// The position of the first element that `x` sorts after.
pub open spec fn first_below(s: Seq<Seq<char>>, x: Seq<char>) -> int
    decreases s.len(),
{
    if s.len() == 0 {
        0
    } else if text_order(x, s[0]) > 0 {
        0
    } else {
        1 + first_below(s.drop_first(), x)
    }
}

/// Newest version first: a stable sort by name, descending.
pub open spec fn descending(s: Seq<Seq<char>>) -> Seq<Seq<char>>
    decreases s.len(),
{
    if s.len() == 0 {
        seq![]
    } else {
        let sorted = descending(s.drop_last());
        sorted.insert(first_below(sorted, s.last()), s.last())
    }
}

pub proof fn lemma_first_below(s: Seq<Seq<char>>, x: Seq<char>)
    ensures
        0 <= first_below(s, x) <= s.len(),
    decreases s.len(),
{
    if s.len() > 0 && !(text_order(x, s[0]) > 0) {
        lemma_first_below(s.drop_first(), x);
    }
}

/// Where nvm keeps its versions: `NVM_DIR`, else `~/.nvm`.
pub open spec fn nvm_base(home: Seq<char>, nvm_dir: Option<Seq<char>>) -> Seq<char> {
    match nvm_dir {
        Some(d) => d,
        None => path_join(home, ".nvm"@),
    }
}

pub open spec fn nvm_candidates(base: Seq<char>, versions: Seq<Seq<char>>, name: Seq<char>) -> Seq<Seq<char>> {
    versions.map_values(|v: Seq<char>|
        path_join(path_join(path_join(path_join(path_join(base, "versions"@), "node"@), v), "bin"@), name))
}

/// The fixed places npm may be, in the order tried.
pub open spec fn fixed_candidates(home: Seq<char>, windows: bool, appdata: Option<Seq<char>>, program_files: Option<Seq<char>>) -> Seq<Seq<char>> {
    let name = npm_name(windows);
    let win: Seq<Seq<char>> = if windows {
        (match appdata {
            Some(a) => seq![path_join(path_join(a, "npm"@), name)],
            None => seq![],
        }) + (match program_files {
            Some(p) => seq![path_join(path_join(p, "nodejs"@), name)],
            None => seq![],
        })
    } else {
        seq![]
    };
    win + seq![
        path_join(path_join(path_join(home, ".volta"@), "bin"@), name),
        path_join(path_join(path_join(home, ".asdf"@), "shims"@), name),
        path_join(path_join(path_join(path_join(path_join(home, ".fnm"@), "aliases"@), "default"@), "bin"@), name),
        "/usr/local/bin/npm"@,
        "/opt/homebrew/bin/npm"@,
    ]
}

/// Every place tried: nvm's versions, newest first, then the fixed places.
pub open spec fn npm_search(
    home: Seq<char>,
    windows: bool,
    appdata: Option<Seq<char>>,
    program_files: Option<Seq<char>>,
    nvm_dir: Option<Seq<char>>,
    nvm_versions: Option<Seq<Seq<char>>>,
) -> Seq<Seq<char>> {
    let nvm = match nvm_versions {
        Some(vs) => nvm_candidates(nvm_base(home, nvm_dir), descending(v_names(vs)), npm_name(windows)),
        None => seq![],
    };
    nvm + fixed_candidates(home, windows, appdata, program_files)
}

fn v_names_exec(names: &Vec<String>) -> (r: Vec<String>)
    ensures
        strings_view(r@) == v_names(strings_view(names@)),
{
    let ghost nv = strings_view(names@);
    let v: Vec<char> = vec!['v'];
    proof { reveal_strlit("v"); }
    assert(v@ =~= "v"@);
    let mut out: Vec<String> = Vec::new();
    let mut i: usize = 0;
    assert(nv.take(0) =~= seq![]);
    assert(strings_view(out@) =~= seq![]);
    while i < names.len()
        invariant
            i <= names.len(),
            v@ == "v"@,
            nv == strings_view(names@),
            strings_view(out@) == v_names(nv.take(i as int)),
        decreases names.len() - i,
    {
        assert(nv.take(i + 1).drop_last() =~= nv.take(i as int));
        assert(nv.take(i + 1).last() == names@[i as int]@);
        let c = chars_of(names[i].as_str());
        if text::starts_with_exec(&c, &v) {
            let ghost before = out@;
            let s = text::owned(names[i].as_str());
            out.push(s);
            assert(strings_view(out@) =~= strings_view(before).push(s@));
        }
        i += 1;
    }
    assert(nv.take(names.len() as int) =~= nv);
    out
}

fn sort_descending(names: Vec<String>) -> (r: Vec<String>)
    ensures
        strings_view(r@) == descending(strings_view(names@)),
{
    let ghost sv = strings_view(names@);
    let mut out: Vec<String> = Vec::new();
    let mut rest = names;
    let ghost mut i: int = 0;
    assert(sv.skip(0) =~= sv);
    assert(strings_view(out@) =~= descending(sv.take(0)));
    while rest.len() > 0
        invariant
            0 <= i <= sv.len(),
            rest@.len() + i == sv.len(),
            strings_view(rest@) == sv.skip(i),
            strings_view(out@) == descending(sv.take(i)),
        decreases rest.len(),
    {
        let ghost old_rest = rest@;
        let x = rest.remove(0);
        proof {
            assert(strings_view(old_rest)[0] == x@);
            assert(sv.skip(i)[0] == x@);
            assert(sv.take(i + 1).drop_last() =~= sv.take(i));
            assert(sv.take(i + 1).last() == x@);
            assert forall|j: int| 0 <= j < rest@.len() implies #[trigger] strings_view(rest@)[j] == sv.skip(i + 1)[j] by {
                assert(rest@[j] == old_rest[j + 1]);
                assert(strings_view(old_rest)[j + 1] == sv.skip(i)[j + 1]);
            }
            assert(strings_view(rest@) =~= sv.skip(i + 1));
            lemma_first_below(strings_view(out@), x@);
        }
        let mut k: usize = 0;
        assert(strings_view(out@).skip(0) =~= strings_view(out@));
        while k < out.len() && !(text_order_exec(x.as_str(), out[k].as_str()) > 0)
            invariant
                k <= out.len(),
                first_below(strings_view(out@), x@) == k + first_below(strings_view(out@).skip(k as int), x@),
            decreases out.len() - k,
        {
            assert(strings_view(out@).skip(k as int)[0] == out@[k as int]@);
            assert(strings_view(out@).skip(k as int).drop_first() =~= strings_view(out@).skip(k + 1));
            k += 1;
        }
        proof {
            if k < out.len() {
                assert(strings_view(out@).skip(k as int)[0] == out@[k as int]@);
            }
            assert(first_below(strings_view(out@).skip(k as int), x@) == 0);
        }
        let ghost before = strings_view(out@);
        let ghost xv = x@;
        out.insert(k, x);
        proof {
            assert(strings_view(out@) =~= before.insert(k as int, xv));
            i = i + 1;
        }
    }
    assert(sv.take(sv.len() as int) =~= sv);
    out
}

/// npm: the one found before, else the newest nvm version's, else the first
/// fixed place that exists, else `npm` (or `npm.cmd`) from the search path.
/// What is found is remembered.
pub fn find_npm<E: Fn(String) -> bool>(
    cache: &mut Option<String>,
    home: &str,
    windows: bool,
    appdata: Option<&str>,
    program_files: Option<&str>,
    nvm_dir: Option<&str>,
    nvm_versions: Option<Vec<String>>,
    probe: &E,
) -> (r: Option<String>)
    requires
        probe_ready(*probe),
    ensures
        match *old(cache) {
            Some(c) => r matches Some(x) && x@ == c@ && *final(cache) == *old(cache),
            None => r matches Some(x) && (*final(cache) matches Some(y) && y@ == x@) && first_found(
                *probe,
                npm_search(
                    home@,
                    windows,
                    crate::paths::opt_view(appdata),
                    crate::paths::opt_view(program_files),
                    crate::paths::opt_view(nvm_dir),
                    match nvm_versions {
                        Some(v) => Some(strings_view(v@)),
                        None => None,
                    },
                ),
                npm_name(windows),
                x@,
            ),
        },
{
    match cache {
        Some(c) => {
            return Some(text::owned(c.as_str()));
        },
        None => {},
    }
    let name = if windows { text::owned("npm.cmd") } else { text::owned("npm") };
    let mut cands: Vec<String> = Vec::new();
    match &nvm_versions {
        Some(vs) => {
            let base = match nvm_dir {
                Some(d) => text::owned(d),
                None => join_path(home, ".nvm"),
            };
            let sorted = sort_descending(v_names_exec(vs));
            let ghost sv = strings_view(sorted@);
            let mut i: usize = 0;
            while i < sorted.len()
                invariant
                    i <= sorted.len(),
                    sv == strings_view(sorted@),
                    strings_view(cands@) =~= nvm_candidates(base@, sv, name@).take(i as int),
                decreases sorted.len() - i,
            {
                let ghost before = cands@;
                let dir = join4(base.as_str(), "versions", "node", sorted[i].as_str(), "bin");
                let p = join_path(dir.as_str(), name.as_str());
                cands.push(p);
                assert(sv[i as int] == sorted@[i as int]@);
                assert(strings_view(cands@) =~= strings_view(before).push(p@));
                i += 1;
            }
            assert(nvm_candidates(base@, sv, name@).take(sorted.len() as int) =~= nvm_candidates(base@, sv, name@));
            assert(base@ == nvm_base(home@, crate::paths::opt_view(nvm_dir)));
            assert(sv == descending(v_names(strings_view(vs@))));
        },
        None => {
            assert(strings_view(cands@) =~= Seq::<Seq<char>>::empty());
        },
    }
    let ghost nvm_part = strings_view(cands@);
    assert(name@ == npm_name(windows));
    assert(nvm_part == (match nvm_versions {
        Some(vs) => nvm_candidates(nvm_base(home@, crate::paths::opt_view(nvm_dir)), descending(v_names(strings_view(vs@))), npm_name(windows)),
        None => seq![],
    }));
    if windows {
        match appdata {
            Some(a) => cands.push(join2(a, "npm", name.as_str())),
            None => {},
        }
        match program_files {
            Some(p) => cands.push(join2(p, "nodejs", name.as_str())),
            None => {},
        }
    }
    cands.push(join3(home, ".volta", "bin", name.as_str()));
    cands.push(join3(home, ".asdf", "shims", name.as_str()));
    let fnm = join4(home, ".fnm", "aliases", "default", "bin");
    cands.push(join_path(fnm.as_str(), name.as_str()));
    cands.push(text::owned("/usr/local/bin/npm"));
    cands.push(text::owned("/opt/homebrew/bin/npm"));
    proof {
        let want = npm_search(
            home@,
            windows,
            crate::paths::opt_view(appdata),
            crate::paths::opt_view(program_files),
            crate::paths::opt_view(nvm_dir),
            match nvm_versions {
                Some(v) => Some(strings_view(v@)),
                None => None,
            },
        );
        assert(strings_view(cands@) =~= nvm_part + fixed_candidates(home@, windows, crate::paths::opt_view(appdata), crate::paths::opt_view(program_files)));
        assert(strings_view(cands@) =~= want);
        assert(cands@.map_values(|c: String| c@) =~= strings_view(cands@));
    }
    let fallback = text::owned(name.as_str());
    let found = first_existing(cands, fallback, probe);
    *cache = Some(text::owned(found.as_str()));
    Some(found)
}

} // verus!
