//! Connection and model configuration: the data types and their defaults, and
//! reading the connection settings out of `desktop.json`.
use vstd::prelude::*;
use crate::json::{Json, JsonValue};
use crate::text::str_eq;

verus! {

/// SSH connection settings.
pub struct SshConfig {
    pub host: String,
    pub port: u16,
    pub username: String,
    pub key_path: String,
    pub remote_port: u16,
    pub local_port: u16,
}

impl Default for SshConfig {
    fn default() -> (r: Self)
        ensures
            r.host@ == Seq::<char>::empty(),
            r.port == 22,
            r.username@ == Seq::<char>::empty(),
            r.key_path@ == Seq::<char>::empty(),
            r.remote_port == 8642,
            r.local_port == 18642,
    {
        SshConfig {
            host: String::new(),
            port: 22,
            username: String::new(),
            key_path: String::new(),
            remote_port: 8642,
            local_port: 18642,
        }
    }
}

/// How the app reaches Hermes: `mode` is `"local"`, `"remote"` or `"ssh"`.
pub struct ConnectionConfig {
    pub mode: String,
    pub remote_url: String,
    pub api_key: String,
    pub ssh: SshConfig,
}

impl Default for ConnectionConfig {
    fn default() -> (r: Self)
        ensures
            r.mode@ == "local"@,
            r.remote_url@ == Seq::<char>::empty(),
            r.api_key@ == Seq::<char>::empty(),
            r.ssh.port == 22,
            r.ssh.remote_port == 8642,
            r.ssh.local_port == 18642,
            r.ssh.host@ == Seq::<char>::empty(),
    {
        ConnectionConfig {
            mode: String::from_str("local"),
            remote_url: String::new(),
            api_key: String::new(),
            ssh: SshConfig::default(),
        }
    }
}

/// The connection settings as shown to the UI: the key itself is withheld.
pub struct PublicConnectionConfig {
    pub mode: String,
    pub remote_url: String,
    pub has_api_key: bool,
    pub api_key_length: usize,
    pub ssh: SshConfig,
}

/// The active model: provider, model name and base URL.
pub struct ModelConfig {
    pub provider: String,
    pub model: String,
    pub base_url: String,
}

impl Default for ModelConfig {
    fn default() -> (r: Self)
        ensures
            r.provider@ == Seq::<char>::empty(),
            r.model@ == Seq::<char>::empty(),
            r.base_url@ == Seq::<char>::empty(),
    {
        ModelConfig { provider: String::new(), model: String::new(), base_url: String::new() }
    }
}

/// One entry of a provider's credential pool in `auth.json`.
pub struct CredentialEntry {
    pub key: Option<String>,
    pub label: Option<String>,
}

/// `value[k].as_str()` or a default.
pub open spec fn str_or(v: Json, k: Seq<char>, d: Seq<char>) -> Seq<char> {
    match v.str_field(k) {
        Some(s) => s,
        None => d,
    }
}

/// `value[k].as_u64()` or a default, cast to `u16` (wrapping, as `as u16` does).
pub open spec fn port_or(v: Json, k: Seq<char>, d: int) -> u16 {
    match v.field(k).as_u64() {
        Some(n) => (n as u64) as u16,
        None => d as u16,
    }
}

/// The connection settings that `desktop.json` holds: `connectionMode` (default
/// `"local"`), `remoteUrl`, `remoteApiKey` and the `sshConfig` object.
pub open spec fn connection_from_json(r: ConnectionConfig, data: Json) -> bool {
    let ssh = data.field("sshConfig"@);
    &&& r.mode@ == str_or(data, "connectionMode"@, "local"@)
    &&& r.remote_url@ == str_or(data, "remoteUrl"@, seq![])
    &&& r.api_key@ == str_or(data, "remoteApiKey"@, seq![])
    &&& r.ssh.host@ == str_or(ssh, "host"@, seq![])
    &&& r.ssh.port == port_or(ssh, "port"@, 22)
    &&& r.ssh.username@ == str_or(ssh, "username"@, seq![])
    &&& r.ssh.key_path@ == str_or(ssh, "keyPath"@, seq![])
    &&& r.ssh.remote_port == port_or(ssh, "remotePort"@, 8642)
    &&& r.ssh.local_port == port_or(ssh, "localPort"@, 18642)
}

fn str_or_exec(v: &JsonValue, k: &str, d: &str) -> (r: String)
    ensures
        r@ == str_or(v@, k@, d@),
{
    match v.str_field(k) {
        Some(s) => s,
        None => String::from_str(d),
    }
}

fn port_or_exec(v: &JsonValue, k: &str, d: u16) -> (r: u16)
    ensures
        r == port_or(v@, k@, d as int),
{
    match v.u64_field(k) {
        Some(n) => n as u16,
        None => d,
    }
}

/// Reads the connection settings from the parsed `desktop.json`.
pub fn connection_config_from_json(data: &JsonValue) -> (r: ConnectionConfig)
    ensures
        connection_from_json(r, data@),
{
    proof {
        reveal_strlit("");
        assert(""@ =~= Seq::<char>::empty());
    }
    let null = JsonValue::Null;
    let ssh = match data.get("sshConfig") {
        Some(s) => s,
        None => &null,
    };
    assert(ssh@ == data@.field("sshConfig"@));
    let mode = str_or_exec(data, "connectionMode", "local");
    let remote_url = str_or_exec(data, "remoteUrl", "");
    let api_key = str_or_exec(data, "remoteApiKey", "");
    let host = str_or_exec(ssh, "host", "");
    let port = port_or_exec(ssh, "port", 22);
    let username = str_or_exec(ssh, "username", "");
    let key_path = str_or_exec(ssh, "keyPath", "");
    let remote_port = port_or_exec(ssh, "remotePort", 8642);
    let local_port = port_or_exec(ssh, "localPort", 18642);
    ConnectionConfig {
        mode,
        remote_url,
        api_key,
        ssh: SshConfig { host, port, username, key_path, remote_port, local_port },
    }
}

/// Remote mode: the mode is `"remote"` or `"ssh"`.
pub fn is_remote_mode(config: &ConnectionConfig) -> (r: bool)
    ensures
        r == (config.mode@ == "remote"@ || config.mode@ == "ssh"@),
{
    str_eq(config.mode.as_str(), "remote") || str_eq(config.mode.as_str(), "ssh")
}

/// Remote-only mode: the mode is `"remote"`.
pub fn is_remote_only_mode(config: &ConnectionConfig) -> (r: bool)
    ensures
        r == (config.mode@ == "remote"@),
{
    str_eq(config.mode.as_str(), "remote")
}

/// SSH mode: the mode is `"ssh"`.
pub fn is_ssh_mode(config: &ConnectionConfig) -> (r: bool)
    ensures
        r == (config.mode@ == "ssh"@),
{
    str_eq(config.mode.as_str(), "ssh")
}

} // verus!
