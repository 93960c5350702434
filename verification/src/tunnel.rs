//! The SSH tunnel to the remote API: choosing a local port, the connection
//! test's outcome, and the tunnel's state.
use vstd::prelude::*;
use crate::config::SshConfig;
use crate::ssh::{SshConnectionResult, SshTunnelState};
use crate::text::{dec_text, dec_string};
use crate::text;

verus! {

/// The probe was asked whether `port` is open and answered `open`.
pub open spec fn port_probed<P: Fn(u16) -> bool>(probe: P, port: u16, open: bool) -> bool {
    call_ensures(probe, (port,), open)
}

pub open spec fn port_probe_ready<P: Fn(u16) -> bool>(probe: P) -> bool {
    forall|p: u16| call_requires(probe, (p,))
}

/// A free local port: `preferred` or the first of the next 99 ports that is
/// not open; `preferred` when all are taken.
pub fn find_free_port<P: Fn(u16) -> bool>(preferred: u16, probe: &P) -> (r: u16)
    requires
        preferred <= 65535 - 99,
        port_probe_ready(*probe),
    ensures
        (preferred <= r < preferred + 100 && port_probed(*probe, r, false)
            && forall|q: u16| preferred <= q < r ==> #[trigger] port_probed(*probe, q, true))
        || (r == preferred && forall|q: u16| preferred <= q < preferred + 100 ==> #[trigger] port_probed(*probe, q, true)),
{
    let mut off: u16 = 0;
    while off < 100
        invariant
            off <= 100,
            preferred <= 65535 - 99,
            port_probe_ready(*probe),
            forall|q: u16| preferred <= q < preferred + off ==> #[trigger] port_probed(*probe, q, true),
        decreases 100 - off,
    {
        let c = preferred + off;
        let open = probe(c);
        if !open {
            return c;
        }
        off += 1;
    }
    preferred
}

/// One step of waiting for the tunnel's port.
pub enum WaitStep {
    Ready,
    Wait,
    TimedOut(String),
}

/// Ready once the port is open; past the time, a timeout naming the port.
pub fn wait_step(port: u16, open: bool, elapsed_ms: u64, timeout_ms: u64) -> (r: WaitStep)
    ensures
        open ==> r is Ready,
        !open && elapsed_ms > timeout_ms ==> (r matches WaitStep::TimedOut(m) && m@ == "Timeout waiting for port "@ + dec_text(port as nat)),
        !open && elapsed_ms <= timeout_ms ==> r is Wait,
{
    if open {
        WaitStep::Ready
    } else if elapsed_ms > timeout_ms {
        let n = dec_string(port as u64);
        WaitStep::TimedOut(text::concat2("Timeout waiting for port ", n.as_str()))
    } else {
        WaitStep::Wait
    }
}

/// The connection test's outcome: connected to the configured host and port, or failed.
pub fn connection_result(cfg: &SshConfig, connected: bool) -> (r: SshConnectionResult)
    ensures
        r.success == connected,
        connected ==> r.message@ == "Connected to "@ + cfg.username@ + "@"@ + cfg.host@ + ":"@ + dec_text(cfg.port as nat),
        !connected ==> r.message@ == "SSH connection failed or timed out"@,
{
    if connected {
        let mut v = text::chars_of("Connected to ");
        text::push_str(&mut v, cfg.username.as_str());
        text::push_str(&mut v, "@");
        text::push_str(&mut v, cfg.host.as_str());
        text::push_str(&mut v, ":");
        text::push_dec(&mut v, cfg.port as u64);
        SshConnectionResult { success: true, message: text::string_of(v.as_slice()) }
    } else {
        SshConnectionResult { success: false, message: text::owned("SSH connection failed or timed out") }
    }
}

/// Without a host there is nothing to test.
pub fn no_config_result() -> (r: SshConnectionResult)
    ensures
        !r.success,
        r.message@ == "No SSH configuration found"@,
{
    SshConnectionResult { success: false, message: text::owned("No SSH configuration found") }
}

/// Starting a tunnel needs a host.
pub fn check_tunnel_config(cfg: &SshConfig) -> (r: Result<(), String>)
    ensures
        cfg.host@.len() == 0 ==> (r matches Err(e) && e@ == "No SSH configuration found"@),
        cfg.host@.len() > 0 ==> r is Ok,
{
    let h = text::chars_of(cfg.host.as_str());
    if h.len() == 0 {
        Err(text::owned("No SSH configuration found"))
    } else {
        Ok(())
    }
}

/// The tunnel once its port is open.
pub fn connected_state(cfg: &SshConfig, local_port: u16) -> (r: SshTunnelState)
    ensures
        r matches SshTunnelState::Connected { local_port: lp, remote_host: h, remote_port: rp }
            && lp == local_port && h@ == cfg.host@ && rp == cfg.remote_port,
{
    SshTunnelState::Connected { local_port, remote_host: text::owned(cfg.host.as_str()), remote_port: cfg.remote_port }
}

/// Whether the tunnel is up.
pub fn is_ssh_tunnel_active(state: &SshTunnelState) -> (b: bool)
    ensures
        b == (state is Connected),
{
    match state {
        SshTunnelState::Connected { .. } => true,
        SshTunnelState::Disconnected => false,
    }
}

/// The port whose health is checked: the tunnel's, when it is up.
pub fn tunnel_port(state: &SshTunnelState) -> (r: Option<u16>)
    ensures
        match *state {
            SshTunnelState::Connected { local_port, .. } => r == Some(local_port),
            SshTunnelState::Disconnected => r is None,
        },
{
    match state {
        SshTunnelState::Connected { local_port, .. } => Some(*local_port),
        SshTunnelState::Disconnected => None,
    }
}

/// The health address of a local port.
pub fn tunnel_health_url(port: u16) -> (r: String)
    ensures
        r@ == "http://127.0.0.1:"@ + dec_text(port as nat) + "/health"@,
{
    let mut v = text::chars_of("http://127.0.0.1:");
    text::push_dec(&mut v, port as u64);
    text::push_str(&mut v, "/health");
    text::string_of(v.as_slice())
}

} // verus!
