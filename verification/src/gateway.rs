//! The local gateway and the desktop's shared state: first-run setup of the
//! API server, starting, stopping and reporting the gateway, and which way a
//! message is sent.
use vstd::prelude::*;
use crate::chat::ChatState;
use crate::config::ConnectionConfig;
use crate::ssh::SshTunnelState;
use crate::text::contains_sub;
use crate::text;
use crate::cli::strings_view;

verus! {

/// Whether the gateway the desktop started is running (with its process id).
pub enum GatewayState {
    NotRunning,
    Running(u32),
}

/// What the desktop keeps between commands.
pub struct AppState {
    pub chat_state: ChatState,
    pub gateway_state: GatewayState,
    pub ssh_tunnel_state: SshTunnelState,
}

impl AppState {
    pub fn new() -> (r: AppState)
        ensures
            !r.chat_state.cancel_token,
            r.chat_state.ssh_remote_api_key@.len() == 0,
            r.gateway_state is NotRunning,
            r.ssh_tunnel_state is Disconnected,
    {
        AppState { chat_state: ChatState::default(), gateway_state: GatewayState::NotRunning, ssh_tunnel_state: SshTunnelState::Disconnected }
    }
}

// ───────────────────────── first-run setup ─────────────────────────

/// The settings block that turns on the local API server.
pub const API_SERVER_BLOCK: &'static str = "\n# Desktop app API server (auto-configured)\nplatforms:\n  api_server:\n    enabled: true\n    extra:\n      port: 8642\n      host: \"127.0.0.1\"\n";

/// One-time setup: done at most once per run of the desktop.
pub struct InitFlags {
    pub init_done: bool,
    pub api_config_done: bool,
}

impl InitFlags {
    pub fn new() -> (r: InitFlags)
        ensures
            !r.init_done && !r.api_config_done,
    {
        InitFlags { init_done: false, api_config_done: false }
    }

    /// Claims the API-server setup: true the first time, unless remote.
    pub fn claim_api_config(&mut self, remote: bool) -> (run: bool)
        ensures
            final(self).api_config_done,
            final(self).init_done == old(self).init_done,
            run == (!old(self).api_config_done && !remote),
    {
        let was = self.api_config_done;
        self.api_config_done = true;
        !was && !remote
    }

    /// The first call (when local) claims the API-server setup.
    pub fn ensure_initialized(&mut self, remote: bool) -> (run: bool)
        ensures
            final(self).init_done,
            old(self).init_done ==> *final(self) == *old(self) && !run,
            !old(self).init_done && remote ==> final(self).api_config_done == old(self).api_config_done && !run,
            !old(self).init_done && !remote ==> final(self).api_config_done && run == !old(self).api_config_done,
    {
        let was = self.init_done;
        self.init_done = true;
        if was {
            return false;
        }
        if remote {
            return false;
        }
        self.claim_api_config(remote)
    }
}

/// The configuration with the API server block appended, unless it
/// already mentions `api_server`.
pub fn api_server_config(content: &str) -> (r: Option<String>)
    ensures
        contains_sub(content@, "api_server"@) ==> r is None,
        !contains_sub(content@, "api_server"@) ==> (r matches Some(c) && c@ == content@ + API_SERVER_BLOCK@),
{
    if text::str_contains(content, "api_server") {
        None
    } else {
        Some(text::concat2(content, API_SERVER_BLOCK))
    }
}

// ───────────────────────── the gateway ─────────────────────────

/// What starting the gateway does.
pub enum GatewayStart {
    /// Nothing (remote mode, or it is running): the command answers `false`.
    Skip,
    /// Start it.
    Spawn,
}

pub fn gateway_start_step(remote: bool, state: &GatewayState) -> (r: GatewayStart)
    ensures
        (remote || state is Running) ==> r is Skip,
        (!remote && state is NotRunning) ==> r is Spawn,
{
    if remote {
        return GatewayStart::Skip;
    }
    match state {
        GatewayState::Running(_) => GatewayStart::Skip,
        GatewayState::NotRunning => GatewayStart::Spawn,
    }
}

/// The gateway's environment: the profile's non-empty settings, then the
/// Hermes home and the switch that turns on the API server.
pub fn gateway_env(profile_env: &Vec<(String, String)>, hermes_home: &str) -> (r: Vec<(String, String)>)
    ensures
        r@.map_values(|p: (String, String)| (p.0@, p.1@)) == crate::gateway::nonempty_pairs(
            profile_env@.map_values(|p: (String, String)| (p.0@, p.1@)),
        ) + seq![("HERMES_HOME"@, hermes_home@), ("API_SERVER_ENABLED"@, "true"@)],
{
    let ghost pv = profile_env@.map_values(|p: (String, String)| (p.0@, p.1@));
    let mut out: Vec<(String, String)> = Vec::new();
    let mut i: usize = 0;
    assert(pv.take(0) =~= seq![]);
    assert(out@.map_values(|p: (String, String)| (p.0@, p.1@)) =~= seq![]);
    while i < profile_env.len()
        invariant
            i <= profile_env.len(),
            pv == profile_env@.map_values(|p: (String, String)| (p.0@, p.1@)),
            out@.map_values(|p: (String, String)| (p.0@, p.1@)) == nonempty_pairs(pv.take(i as int)),
        decreases profile_env.len() - i,
    {
        assert(pv.take(i + 1).drop_last() =~= pv.take(i as int));
        assert(pv.take(i + 1).last() == (profile_env@[i as int].0@, profile_env@[i as int].1@));
        let v = text::chars_of(profile_env[i].1.as_str());
        if v.len() > 0 {
            let ghost before = out@;
            let e = (text::owned(profile_env[i].0.as_str()), text::owned(profile_env[i].1.as_str()));
            out.push(e);
            assert(out@.map_values(|p: (String, String)| (p.0@, p.1@)) =~= before.map_values(|p: (String, String)| (p.0@, p.1@)).push((e.0@, e.1@)));
        }
        i += 1;
    }
    assert(pv.take(profile_env.len() as int) =~= pv);
    let ghost mid = out@;
    out.push((text::owned("HERMES_HOME"), text::owned(hermes_home)));
    out.push((text::owned("API_SERVER_ENABLED"), text::owned("true")));
    assert(out@.map_values(|p: (String, String)| (p.0@, p.1@)) =~= mid.map_values(|p: (String, String)| (p.0@, p.1@))
        + seq![("HERMES_HOME"@, hermes_home@), ("API_SERVER_ENABLED"@, "true"@)]);
    out
}

/// The pairs with a non-empty value, in order.
pub open spec fn nonempty_pairs(s: Seq<(Seq<char>, Seq<char>)>) -> Seq<(Seq<char>, Seq<char>)>
    decreases s.len(),
{
    if s.len() == 0 {
        seq![]
    } else if s.last().1.len() > 0 {
        nonempty_pairs(s.drop_last()).push(s.last())
    } else {
        nonempty_pairs(s.drop_last())
    }
}

/// The gateway's arguments to the interpreter: the launcher and `gateway`.
pub fn gateway_args(script: &str) -> (r: Vec<String>)
    ensures
        strings_view(r@) == seq![script@, "gateway"@],
{
    let mut a: Vec<String> = Vec::new();
    a.push(text::owned(script));
    a.push(text::owned("gateway"));
    assert(strings_view(a@) =~= seq![script@, "gateway"@]);
    a
}

/// After a stop the desktop holds no gateway; the process it held, if any,
/// is to be killed.
pub fn stop_gateway(state: &mut GatewayState) -> (held: Option<u32>)
    ensures
        *final(state) is NotRunning,
        match *old(state) {
            GatewayState::Running(pid) => held == Some(pid),
            GatewayState::NotRunning => held is None,
        },
{
    let held = match state {
        GatewayState::Running(pid) => Some(*pid),
        GatewayState::NotRunning => None,
    };
    *state = GatewayState::NotRunning;
    held
}

/// The gateway counts as running when the desktop started it or its pid
/// file exists.
pub fn gateway_status(state: &GatewayState, pid_file_exists: bool) -> (b: bool)
    ensures
        b == (state is Running || pid_file_exists),
{
    match state {
        GatewayState::Running(_) => true,
        GatewayState::NotRunning => pid_file_exists,
    }
}

/// The proxy needs the launcher: `hermes.notInstalled` without it; its
/// arguments are the launcher and `proxy`.
pub fn proxy_args(script: &str, script_exists: bool) -> (r: Result<Vec<String>, String>)
    ensures
        !script_exists ==> (r matches Err(e) && e@ == "hermes.notInstalled"@),
        script_exists ==> (r matches Ok(a) && strings_view(a@) == seq![script@, "proxy"@]),
{
    if !script_exists {
        return Err(text::owned("hermes.notInstalled"));
    }
    let mut a: Vec<String> = Vec::new();
    a.push(text::owned(script));
    a.push(text::owned("proxy"));
    assert(strings_view(a@) =~= seq![script@, "proxy"@]);
    Ok(a)
}

// ───────────────────────── sending ─────────────────────────

/// Remote (or SSH) mode, when the connection settings can be read.
pub fn is_remote(conn: &Result<ConnectionConfig, String>) -> (b: bool)
    ensures
        b == match conn {
            Ok(c) => c.mode@ == "remote"@ || c.mode@ == "ssh"@,
            Err(_) => false,
        },
{
    match conn {
        Ok(c) => crate::config::is_remote_mode(c),
        Err(_) => false,
    }
}

/// Remote mode proper, when the connection settings can be read.
pub fn is_remote_only(conn: &Result<ConnectionConfig, String>) -> (b: bool)
    ensures
        b == match conn {
            Ok(c) => c.mode@ == "remote"@,
            Err(_) => false,
        },
{
    match conn {
        Ok(c) => crate::config::is_remote_only_mode(c),
        Err(_) => false,
    }
}

/// How a message goes: over the API when remote or when the local API
/// server answers, else through the command line.
pub fn send_over_api(remote: bool, api_ready: bool) -> (b: bool)
    ensures
        b == (remote || api_ready),
{
    remote || api_ready
}

/// Aborting the chat raises the cancel flag; sending lowers it.
pub fn set_cancel(state: &mut ChatState, cancel: bool)
    ensures
        final(state).cancel_token == cancel,
        final(state).ssh_remote_api_key == old(state).ssh_remote_api_key,
{
    state.cancel_token = cancel;
}


/// The connection test's request: the health address of the normalised
/// URL, with the key as a bearer token when one is given.
pub fn remote_test_request(url: &str, api_key: Option<&str>) -> (r: (String, crate::kv::StrMap))
    ensures
        r.0@ == crate::chat::normalised_url(url@) + "/health"@,
        r.1@ == match api_key {
            Some(k) => if k@.len() > 0 { map!["Authorization"@ => "Bearer "@ + k@] } else { Map::empty() },
            None => Map::empty(),
        },
{
    let base = crate::chat::normalise_remote_url(url);
    let target = crate::chat::health_url(base.as_str());
    let mut h = crate::kv::StrMap::new();
    match api_key {
        Some(k) => {
            let kc = text::chars_of(k);
            if kc.len() > 0 {
                h.insert(text::owned("Authorization"), text::concat2("Bearer ", k));
                proof { reveal_strlit("Authorization"); }
            }
        },
        None => {},
    }
    (target, h)
}

} // verus!
