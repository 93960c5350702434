//! Remote operations over SSH: the `ssh` argument lists, shell quoting, the
//! remote command lines, and what each remote operation makes of the output.
//!
//! The remote operations take an executor: a function that runs one command
//! on the remote host (as `ssh user@host command`) and returns its standard
//! output, or an error message. Each operation's contract says which command
//! it hands over and what it returns for whatever the executor returned.
use vstd::prelude::*;
use crate::config::SshConfig;
use crate::kv::StrMap;
use crate::text;
use crate::text::{chars_of, join, lines, push_all, push_str, starts_with, string_of, trim};
use crate::yaml::utf8_len;
use crate::cli::strings_view;
use crate::settings::pairs_map;
use crate::paths::opt_view;
use crate::json::{entries_view, items_view, json_parse, parse_json, Json, JsonValue};

verus! {

// ───────────────────────── quoting and paths ─────────────────────────

pub open spec fn quote_piece(c: char) -> Seq<char> {
    if c == '\'' {
        seq!['\'', '"', '\'', '"', '\'']
    } else {
        seq![c]
    }
}

pub open spec fn escape_quotes(s: Seq<char>) -> Seq<char>
    decreases s.len(),
{
    if s.len() == 0 {
        seq![]
    } else {
        escape_quotes(s.drop_last()) + quote_piece(s.last())
    }
}

/// `'value'` with each `'` written as `'"'"'`.
pub open spec fn shell_quoted(s: Seq<char>) -> Seq<char> {
    seq!['\''] + escape_quotes(s) + seq!['\'']
}

fn shell_quote_chars(s: &Vec<char>) -> (r: Vec<char>)
    ensures
        r@ == shell_quoted(s@),
{
    let mut r: Vec<char> = vec!['\''];
    let mut i: usize = 0;
    while i < s.len()
        invariant
            i <= s.len(),
            r@ == seq!['\''] + escape_quotes(s@.take(i as int)),
        decreases s.len() - i,
    {
        proof {
            assert(s@.take(i + 1).drop_last() =~= s@.take(i as int));
        }
        if s[i] == '\'' {
            r.push('\'');
            r.push('"');
            r.push('\'');
            r.push('"');
            r.push('\'');
        } else {
            r.push(s[i]);
        }
        assert(r@ =~= seq!['\''] + escape_quotes(s@.take(i + 1)));
        i += 1;
    }
    assert(s@.take(s.len() as int) =~= s@);
    r.push('\'');
    r
}

/// Shell-quotes a value for safe bash command construction.
pub fn shell_quote(value: &str) -> (r: String)
    ensures
        r@ == shell_quoted(value@),
{
    let v = chars_of(value);
    string_of(shell_quote_chars(&v).as_slice())
}

/// The first `~/` replaced by `$HOME/`.
pub open spec fn normalized_remote_path(p: Seq<char>) -> Seq<char> {
    match text::find_sub(p, seq!['~', '/']) {
        Some(i) => p.take(i) + "$HOME/"@ + p.skip(i + 2),
        None => p,
    }
}

fn normalize_remote_path_chars(p: &Vec<char>) -> (r: Vec<char>)
    ensures
        r@ == normalized_remote_path(p@),
{
    let pat: Vec<char> = vec!['~', '/'];
    assert(pat@ =~= seq!['~', '/']);
    assert(p@.skip(0) =~= p@);
    match text::find_from(p, &pat, 0) {
        Some(i) => {
            proof {
                text::lemma_find_sub(p@, seq!['~', '/']);
                assert(text::matches_at(p@, seq!['~', '/'], i as int));
            }
            let mut r = text::slice(p, 0, i);
            push_str(&mut r, "$HOME/");
            let tail = text::slice(p, i + 2, p.len());
            push_all(&mut r, &tail);
            assert(r@ =~= normalized_remote_path(p@));
            r
        },
        None => text::slice(p, 0, p.len()),
    }
}

/// Normalizes a remote file path (a leading `~/` becomes `$HOME/`).
pub fn normalize_remote_path(path: &str) -> (r: String)
    ensures
        r@ == normalized_remote_path(path@),
{
    let p = chars_of(path);
    let r = normalize_remote_path_chars(&p);
    assert(p@.subrange(0, p@.len() as int) =~= p@);
    string_of(r.as_slice())
}

/// The base directory of a profile on the remote host.
pub open spec fn remote_profile_dir(profile: Option<Seq<char>>) -> Seq<char> {
    match profile {
        Some(p) => if p != "default"@ {
            "~/.hermes/profiles/"@ + p
        } else {
            "~/.hermes"@
        },
        None => "~/.hermes"@,
    }
}

/// Remote profile paths helper.
pub fn remote_profile_path(profile: Option<&str>) -> (r: String)
    ensures
        r@ == remote_profile_dir(opt_view(profile)),
{
    match profile {
        Some(p) => if !text::str_eq(p, "default") {
            text::concat2("~/.hermes/profiles/", p)
        } else {
            String::from_str("~/.hermes")
        },
        None => String::from_str("~/.hermes"),
    }
}

// ───────────────────────── remote hermes command ─────────────────────────

pub open spec fn quoted_args(args: Seq<Seq<char>>) -> Seq<Seq<char>>
    decreases args.len(),
{
    if args.len() == 0 {
        seq![]
    } else {
        quoted_args(args.drop_last()).push(shell_quoted(args.last()))
    }
}

pub open spec fn probe_line(p: Seq<char>, q: Seq<char>) -> Seq<char> {
    "[ -x "@ + p + " ] && exec "@ + p + " "@ + q
}

pub open spec fn venv_candidates() -> Seq<Seq<char>> {
    seq![
        "$HOME/hermes-agent/.venv/bin/hermes"@,
        "$HOME/.hermes/hermes-agent/.venv/bin/hermes"@,
        "/opt/hermes/hermes-agent/.venv/bin/hermes"@,
    ]
}

/// How a POSIX shell reads a word made of single-quoted pieces `'…'` and
/// double-quoted single quotes `"'"`: the text it stands for, or `None`
/// when the text is not such a word. Inside `'…'` every character stands
/// for itself; the piece ends at the next `'`.
pub open spec fn read_quoted_word(s: Seq<char>) -> Option<Seq<char>>
    decreases s.len(),
{
    if s.len() == 0 {
        Some(seq![])
    } else if s[0] == '\'' {
        match text::find_sub(s.drop_first(), seq!['\'']) {
            Some(j) => if 0 <= j && j + 2 <= s.len() {
                match read_quoted_word(s.skip(j + 2)) {
                    Some(r) => Some(s.subrange(1, j + 1) + r),
                    None => None,
                }
            } else {
                None
            },
            None => None,
        }
    } else if s.len() >= 3 && s[0] == '"' && s[1] == '\'' && s[2] == '"' {
        match read_quoted_word(s.skip(3)) {
            Some(r) => Some(seq!['\''] + r),
            None => None,
        }
    } else {
        None
    }
}

proof fn lemma_escape_quotes_concat(a: Seq<char>, b: Seq<char>)
    ensures
        escape_quotes(a + b) == escape_quotes(a) + escape_quotes(b),
    decreases b.len(),
{
    if b.len() == 0 {
        assert(a + b =~= a);
        assert(escape_quotes(a) + escape_quotes(b) =~= escape_quotes(a));
    } else {
        assert((a + b).drop_last() =~= a + b.drop_last());
        assert((a + b).last() == b.last());
        lemma_escape_quotes_concat(a, b.drop_last());
        assert(escape_quotes(a) + escape_quotes(b.drop_last()) + quote_piece(b.last()) =~= escape_quotes(a)
            + (escape_quotes(b.drop_last()) + quote_piece(b.last())));
    }
}

proof fn lemma_escape_quotes_plain(a: Seq<char>)
    requires
        forall|i: int| 0 <= i < a.len() ==> #[trigger] a[i] != '\'',
    ensures
        escape_quotes(a) == a,
    decreases a.len(),
{
    if a.len() > 0 {
        assert forall|i: int| 0 <= i < a.drop_last().len() implies #[trigger] a.drop_last()[i] != '\'' by {
            assert(a.drop_last()[i] == a[i]);
        }
        lemma_escape_quotes_plain(a.drop_last());
        assert(a.drop_last() + seq![a.last()] =~= a);
    }
}

/// A shell-quoted value is read by the shell as one word that stands for
/// exactly that value: spaces, `;`, `$` and quotes in it have no effect.
pub proof fn law_quoted_word(x: Seq<char>)
    ensures
        read_quoted_word(shell_quoted(x)) == Some(x),
    decreases x.len(),
{
    let q = seq!['\''];
    let s = shell_quoted(x);
    text::lemma_find_sub(x, q);
    if let Some(i) = text::find_sub(x, q) {
        let a = x.take(i);
        let b = x.skip(i + 1);
        assert(x[i] == '\'') by {
            assert(x.subrange(i, i + 1)[0] == x[i]);
        }
        assert forall|k: int| 0 <= k < a.len() implies #[trigger] a[k] != '\'' by {
            assert(a[k] == x[k]);
            if x[k] == '\'' {
                assert(x.subrange(k, k + 1) =~= q);
                assert(text::matches_at(x, q, k));
            }
        }
        assert(x =~= a + q + b);
        lemma_escape_quotes_concat(a + q, b);
        lemma_escape_quotes_concat(a, q);
        lemma_escape_quotes_plain(a);
        assert(q =~= Seq::<char>::empty().push('\''));
        assert(escape_quotes(q) =~= seq!['\'', '"', '\'', '"', '\'']) by {
            assert(q.drop_last() =~= Seq::<char>::empty());
            assert(escape_quotes(Seq::<char>::empty()) == Seq::<char>::empty());
            assert(q.last() == '\'');
        }
        let tail = seq!['"', '\'', '"'] + shell_quoted(b);
        assert(s =~= q + a + q + tail);
        let t = s.drop_first();
        assert(t.subrange(i, i + 1) =~= q);
        assert forall|j: int| 0 <= j < i implies !text::matches_at(t, q, j) by {
            assert(t.subrange(j, j + 1)[0] == a[j]);
        }
        text::lemma_find_sub_first(t, q, i);
        assert(s.subrange(1, i + 1) =~= a);
        assert(s.skip(i + 2) =~= tail);
        assert(tail.skip(3) =~= shell_quoted(b));
        law_quoted_word(b);
        assert(tail[0] == '"' && tail[1] == '\'' && tail[2] == '"');
        assert(read_quoted_word(tail) == Some(seq!['\''] + b));
        assert(s[0] == '\'');
        assert(a + (seq!['\''] + b) =~= x);
        assert(read_quoted_word(s) == Some(s.subrange(1, i + 1) + (seq!['\''] + b)));
    } else {
        assert forall|k: int| 0 <= k < x.len() implies #[trigger] x[k] != '\'' by {
            if x[k] == '\'' {
                assert(x.subrange(k, k + 1) =~= q);
                assert(text::matches_at(x, q, k));
            }
        }
        lemma_escape_quotes_plain(x);
        assert(s =~= q + x + q);
        let t = s.drop_first();
        let n = x.len() as int;
        assert(t.subrange(n, n + 1) =~= q);
        assert forall|j: int| 0 <= j < n implies !text::matches_at(t, q, j) by {
            assert(t.subrange(j, j + 1)[0] == t[j]);
            assert(t[j] == x[j]);
        }
        text::lemma_find_sub_first(t, q, n);
        assert(s.subrange(1, n + 1) =~= x);
        assert(s.skip(n + 2) =~= Seq::<char>::empty());
        assert(x + Seq::<char>::empty() =~= x);
        assert(s[0] == '\'');
        assert(read_quoted_word(s.skip(n + 2)) == Some(Seq::<char>::empty()));
        assert(read_quoted_word(s) == Some(s.subrange(1, n + 1) + Seq::<char>::empty()));
    }
}

/// The script that runs Hermes on the remote host: try each known venv,
/// then `hermes` on the `PATH`, with every argument shell-quoted.
pub open spec fn remote_hermes_script(args: Seq<Seq<char>>) -> Seq<char> {
    let q = join(quoted_args(args), seq![' ']);
    let c = venv_candidates();
    let probe = probe_line(c[0], q) + "; "@ + probe_line(c[1], q) + "; "@ + probe_line(c[2], q);
    probe + "; command -v hermes >/dev/null && exec hermes "@ + q
        + "; echo \"ERR: hermes CLI not found on remote\" >&2; exit 1"@
}

/// The remote Hermes command line: `bash -c` with the whole script quoted
/// once, so that the arguments reach Hermes as they were given.
pub open spec fn remote_hermes_cmd(args: Seq<Seq<char>>) -> Seq<char> {
    "bash -c "@ + shell_quoted(remote_hermes_script(args))
}

proof fn lemma_quoted_args(args: Seq<Seq<char>>)
    ensures
        quoted_args(args).len() == args.len(),
        forall|i: int| 0 <= i < args.len() ==> #[trigger] quoted_args(args)[i] == shell_quoted(args[i]),
    decreases args.len(),
{
    if args.len() > 0 {
        lemma_quoted_args(args.drop_last());
        assert forall|i: int| 0 <= i < args.len() implies #[trigger] quoted_args(args)[i] == shell_quoted(
            args[i],
        ) by {
            if i < args.len() - 1 {
                assert(args.drop_last()[i] == args[i]);
            }
        }
    }
}

/// The remote Hermes command is `bash -c` and a single word that the shell
/// reads as the script; in the script each argument stands as a quoted word
/// that the shell reads as the argument itself.
pub proof fn law_remote_hermes_cmd_quoting(args: Seq<Seq<char>>)
    ensures
        remote_hermes_cmd(args) == "bash -c "@ + shell_quoted(remote_hermes_script(args)),
        read_quoted_word(shell_quoted(remote_hermes_script(args))) == Some(remote_hermes_script(args)),
        quoted_args(args).len() == args.len(),
        forall|i: int| 0 <= i < args.len() ==> read_quoted_word(#[trigger] quoted_args(args)[i]) == Some(args[i]),
{
    law_quoted_word(remote_hermes_script(args));
    lemma_quoted_args(args);
    assert forall|i: int| 0 <= i < args.len() implies read_quoted_word(#[trigger] quoted_args(args)[i]) == Some(
        args[i],
    ) by {
        law_quoted_word(args[i]);
    }
}

pub open spec fn strs_view(args: Seq<&str>) -> Seq<Seq<char>> {
    args.map_values(|a: &str| a@)
}

fn probe_line_exec(r: &mut Vec<char>, p: &str, q: &Vec<char>)
    ensures
        final(r)@ == old(r)@ + probe_line(p@, q@),
{
    push_str(r, "[ -x ");
    push_str(r, p);
    push_str(r, " ] && exec ");
    push_str(r, p);
    push_str(r, " ");
    push_all(r, q);
    assert(final(r)@ =~= old(r)@ + probe_line(p@, q@));
}

/// Builds the remote Hermes CLI command string with venv probing.
pub fn build_remote_hermes_cmd(args: &[&str]) -> (r: String)
    ensures
        r@ == remote_hermes_cmd(strs_view(args@)),
{
    let ghost av = strs_view(args@);
    let mut qs: Vec<Vec<char>> = Vec::new();
    let mut i: usize = 0;
    while i < args.len()
        invariant
            i <= args@.len(),
            av == strs_view(args@),
            qs@.map_values(|p: Vec<char>| p@) == quoted_args(av.take(i as int)),
        decreases args@.len() - i,
    {
        let a = chars_of(args[i]);
        let q = shell_quote_chars(&a);
        proof {
            assert(av.take(i + 1).drop_last() =~= av.take(i as int));
            assert(av.take(i + 1).last() == a@);
        }
        qs.push(q);
        proof {
            assert(qs@.map_values(|p: Vec<char>| p@) =~= quoted_args(av.take(i + 1)));
        }
        i += 1;
    }
    assert(av.take(args@.len() as int) =~= av);
    let sp: Vec<char> = vec![' '];
    assert(sp@ =~= seq![' ']);
    let q = text::join_exec(&qs, &sp);
    let mut r: Vec<char> = Vec::new();
    probe_line_exec(&mut r, "$HOME/hermes-agent/.venv/bin/hermes", &q);
    push_str(&mut r, "; ");
    probe_line_exec(&mut r, "$HOME/.hermes/hermes-agent/.venv/bin/hermes", &q);
    push_str(&mut r, "; ");
    probe_line_exec(&mut r, "/opt/hermes/hermes-agent/.venv/bin/hermes", &q);
    push_str(&mut r, "; command -v hermes >/dev/null && exec hermes ");
    push_all(&mut r, &q);
    push_str(&mut r, "; echo \"ERR: hermes CLI not found on remote\" >&2; exit 1");
    assert(r@ =~= remote_hermes_script(av));
    let mut cmd = chars_of("bash -c ");
    let qs = shell_quote_chars(&r);
    push_all(&mut cmd, &qs);
    assert(cmd@ =~= remote_hermes_cmd(av));
    string_of(cmd.as_slice())
}

// ───────────────────────── ssh argument lists ─────────────────────────

pub open spec fn control_options(for_tunnel: bool, windows: bool) -> Seq<Seq<char>> {
    if windows || for_tunnel {
        seq!["-o"@, "ControlMaster=no"@, "-o"@, "ControlPath=none"@, "-o"@, "ControlPersist=no"@]
    } else {
        seq![
            "-o"@,
            "ControlMaster=auto"@,
            "-o"@,
            "ControlPath=~/.ssh/cm-hermes-%r@%h:%p"@,
            "-o"@,
            "ControlPersist=60s"@,
        ]
    }
}

fn push_string(v: &mut Vec<String>, s: String)
    ensures
        strings_view(final(v)@) == strings_view(old(v)@).push(s@),
{
    v.push(s);
    assert(strings_view(final(v)@) =~= strings_view(old(v)@).push(s@));
}

fn push_lit(v: &mut Vec<String>, s: &str)
    ensures
        strings_view(final(v)@) == strings_view(old(v)@).push(s@),
{
    v.push(String::from_str(s));
    assert(strings_view(final(v)@) =~= strings_view(old(v)@).push(s@));
}

/// Control-master options: shared connections for commands on Unix; none for
/// tunnels or on Windows.
pub fn build_ssh_control_options(for_tunnel: bool, windows: bool) -> (r: Vec<String>)
    ensures
        strings_view(r@) == control_options(for_tunnel, windows),
{
    let mut v: Vec<String> = Vec::new();
    if windows || for_tunnel {
        push_lit(&mut v, "-o");
        push_lit(&mut v, "ControlMaster=no");
        push_lit(&mut v, "-o");
        push_lit(&mut v, "ControlPath=none");
        push_lit(&mut v, "-o");
        push_lit(&mut v, "ControlPersist=no");
    } else {
        push_lit(&mut v, "-o");
        push_lit(&mut v, "ControlMaster=auto");
        push_lit(&mut v, "-o");
        push_lit(&mut v, "ControlPath=~/.ssh/cm-hermes-%r@%h:%p");
        push_lit(&mut v, "-o");
        push_lit(&mut v, "ControlPersist=60s");
    }
    assert(strings_view(v@) =~= control_options(for_tunnel, windows));
    v
}

/// The identity file: the configured key, or `~/.ssh/id_rsa` under `home`.
pub open spec fn key_file(cfg: SshConfig, home: Seq<char>) -> Seq<char> {
    if cfg.key_path@.len() == 0 {
        crate::paths::path_join(crate::paths::path_join(home, ".ssh"@), "id_rsa"@)
    } else {
        cfg.key_path@
    }
}

fn key_file_exec(cfg: &SshConfig, home: &str) -> (r: String)
    ensures
        r@ == key_file(*cfg, home@),
{
    if cfg.key_path.as_str().unicode_len() == 0 {
        let a = crate::paths::join_path(home, ".ssh");
        crate::paths::join_path(a.as_str(), "id_rsa")
    } else {
        cfg.key_path.clone()
    }
}

/// The decimal text of a port number.
pub open spec fn u16_text(n: u16) -> Seq<char> {
    text::dec_text(n as nat)
}

fn port_text(n: u16) -> (r: String)
    ensures
        r@ == u16_text(n),
{
    text::dec_string(n as u64)
}

/// Arguments for `ssh user@host command`.
pub open spec fn exec_args(cfg: SshConfig, home: Seq<char>, windows: bool) -> Seq<Seq<char>> {
    seq![
        "-o"@,
        "BatchMode=yes"@,
        "-o"@,
        "StrictHostKeyChecking=accept-new"@,
        "-o"@,
        "ConnectTimeout=15"@,
    ] + control_options(false, windows) + seq![
        "-i"@,
        key_file(cfg, home),
        "-p"@,
        u16_text(cfg.port),
        cfg.username@ + seq!['@'] + cfg.host@,
    ]
}

fn user_at_host(cfg: &SshConfig) -> (r: String)
    ensures
        r@ == cfg.username@ + seq!['@'] + cfg.host@,
{
    let mut v = chars_of(cfg.username.as_str());
    v.push('@');
    push_str(&mut v, cfg.host.as_str());
    string_of(v.as_slice())
}

fn append_strings(v: &mut Vec<String>, w: Vec<String>)
    ensures
        strings_view(final(v)@) == strings_view(old(v)@) + strings_view(w@),
{
    let mut w = w;
    let ghost v0 = v@;
    let ghost w0 = w@;
    v.append(&mut w);
    assert(v@ =~= v0 + w0);
    assert(strings_view(v@) =~= strings_view(v0) + strings_view(w0));
}

/// Builds the `ssh` arguments for running a command; `home` is the user's home
/// directory, where the default identity lives.
pub fn build_exec_args(cfg: &SshConfig, home: &str, windows: bool) -> (r: Vec<String>)
    ensures
        strings_view(r@) == exec_args(*cfg, home@, windows),
{
    let mut v: Vec<String> = Vec::new();
    push_lit(&mut v, "-o");
    push_lit(&mut v, "BatchMode=yes");
    push_lit(&mut v, "-o");
    push_lit(&mut v, "StrictHostKeyChecking=accept-new");
    push_lit(&mut v, "-o");
    push_lit(&mut v, "ConnectTimeout=15");
    let ctl = build_ssh_control_options(false, windows);
    append_strings(&mut v, ctl);
    push_lit(&mut v, "-i");
    push_string(&mut v, key_file_exec(cfg, home));
    push_lit(&mut v, "-p");
    push_string(&mut v, port_text(cfg.port));
    push_string(&mut v, user_at_host(cfg));
    assert(strings_view(v@) =~= exec_args(*cfg, home@, windows));
    v
}

/// Arguments for `ssh -N -L local:127.0.0.1:remote user@host`.
pub open spec fn tunnel_args(cfg: SshConfig, local_port: u16, home: Seq<char>, windows: bool) -> Seq<
    Seq<char>,
> {
    seq![
        "-N"@,
        "-L"@,
        u16_text(local_port) + ":127.0.0.1:"@ + u16_text(cfg.remote_port),
        "-p"@,
        u16_text(cfg.port),
        "-i"@,
        key_file(cfg, home),
        "-o"@,
        "StrictHostKeyChecking=accept-new"@,
        "-o"@,
        "BatchMode=yes"@,
    ] + control_options(true, windows) + seq![
        "-o"@,
        "ExitOnForwardFailure=yes"@,
        "-o"@,
        "ServerAliveInterval=30"@,
        "-o"@,
        "ServerAliveCountMax=3"@,
        cfg.username@ + seq!['@'] + cfg.host@,
    ]
}

/// Builds the `ssh` arguments for a port-forwarding tunnel.
pub fn build_tunnel_args(cfg: &SshConfig, local_port: u16, home: &str, windows: bool) -> (r: Vec<
    String,
>)
    ensures
        strings_view(r@) == tunnel_args(*cfg, local_port, home@, windows),
{
    let mut v: Vec<String> = Vec::new();
    push_lit(&mut v, "-N");
    push_lit(&mut v, "-L");
    let lp = port_text(local_port);
    let rp = port_text(cfg.remote_port);
    push_string(&mut v, text::concat3(lp.as_str(), ":127.0.0.1:", rp.as_str()));
    push_lit(&mut v, "-p");
    push_string(&mut v, port_text(cfg.port));
    push_lit(&mut v, "-i");
    push_string(&mut v, key_file_exec(cfg, home));
    push_lit(&mut v, "-o");
    push_lit(&mut v, "StrictHostKeyChecking=accept-new");
    push_lit(&mut v, "-o");
    push_lit(&mut v, "BatchMode=yes");
    let ctl = build_ssh_control_options(true, windows);
    append_strings(&mut v, ctl);
    push_lit(&mut v, "-o");
    push_lit(&mut v, "ExitOnForwardFailure=yes");
    push_lit(&mut v, "-o");
    push_lit(&mut v, "ServerAliveInterval=30");
    push_lit(&mut v, "-o");
    push_lit(&mut v, "ServerAliveCountMax=3");
    push_string(&mut v, user_at_host(cfg));
    assert(strings_view(v@) =~= tunnel_args(*cfg, local_port, home@, windows));
    v
}

// ───────────────────────── error text ─────────────────────────

pub open spec fn keep_error_line(l: Seq<char>) -> bool {
    !text::contains_sub(l, "Warning:"@) && !text::contains_sub(l, "Permanently added"@)
}

pub open spec fn kept_lines(ls: Seq<Seq<char>>) -> Seq<Seq<char>>
    decreases ls.len(),
{
    if ls.len() == 0 {
        seq![]
    } else if keep_error_line(ls.last()) {
        kept_lines(ls.drop_last()).push(ls.last())
    } else {
        kept_lines(ls.drop_last())
    }
}

/// `ssh`'s standard error without host-key warnings, trimmed.
pub open spec fn sanitized_error(stderr: Seq<char>) -> Seq<char> {
    trim(join(kept_lines(lines(stderr)), seq!['\n']))
}

/// Drops the host-key warning lines from `ssh`'s standard error.
pub fn sanitize_ssh_error(stderr: &str) -> (r: String)
    ensures
        r@ == sanitized_error(stderr@),
{
    let s = chars_of(stderr);
    let ls = text::lines_exec(&s);
    let w1 = chars_of("Warning:");
    let w2 = chars_of("Permanently added");
    let ghost all = lines(s@);
    let mut kept: Vec<Vec<char>> = Vec::new();
    let mut i: usize = 0;
    while i < ls.len()
        invariant
            i <= ls.len(),
            all == lines(s@),
            ls@.len() == all.len(),
            forall|k: int| 0 <= k < ls@.len() ==> #[trigger] ls@[k]@ == all[k],
            w1@ == "Warning:"@,
            w2@ == "Permanently added"@,
            kept@.map_values(|p: Vec<char>| p@) == kept_lines(all.take(i as int)),
        decreases ls.len() - i,
    {
        proof {
            assert(all.take(i + 1).drop_last() =~= all.take(i as int));
            assert(all.take(i + 1).last() == ls@[i as int]@);
        }
        if !text::contains_exec(&ls[i], &w1) && !text::contains_exec(&ls[i], &w2) {
            let l = text::slice(&ls[i], 0, ls[i].len());
            assert(ls@[i as int]@.subrange(0, ls@[i as int]@.len() as int) =~= ls@[i as int]@);
            kept.push(l);
            assert(kept@.map_values(|p: Vec<char>| p@) =~= kept_lines(all.take(i + 1)));
        }
        i += 1;
    }
    assert(all.take(ls.len() as int) =~= all);
    let nl: Vec<char> = vec!['\n'];
    assert(nl@ =~= seq!['\n']);
    let j = text::join_exec(&kept, &nl);
    let t = text::trim_vec(&j);
    string_of(t.as_slice())
}

// ───────────────────────── executor ─────────────────────────

/// One command to run on the remote host.
pub struct SshCommand {
    pub command: String,
    pub stdin: Option<String>,
    pub timeout_ms: u64,
}

pub open spec fn opt_string(o: Option<String>) -> Option<Seq<char>> {
    match o {
        Some(s) => Some(s@),
        None => None,
    }
}

/// The executor was handed this command and returned `out`.
pub open spec fn ssh_ran<F: Fn(SshCommand) -> Result<String, String>>(
    exec: F,
    command: Seq<char>,
    stdin: Option<Seq<char>>,
    timeout_ms: u64,
    out: Result<String, String>,
) -> bool {
    exists|c: SshCommand|
        #![trigger call_ensures(exec, (c,), out)]
        c.command@ == command && opt_string(c.stdin) == stdin && c.timeout_ms == timeout_ms
            && call_ensures(exec, (c,), out)
}

pub open spec fn exec_ready<F: Fn(SshCommand) -> Result<String, String>>(exec: F) -> bool {
    forall|c: SshCommand| call_requires(exec, (c,))
}

fn run<F: Fn(SshCommand) -> Result<String, String>>(
    exec: &F,
    command: String,
    stdin: Option<String>,
    timeout_ms: u64,
) -> (r: Result<String, String>)
    requires
        exec_ready(*exec),
    ensures
        ssh_ran(*exec, command@, opt_string(stdin), timeout_ms, r),
{
    let ghost cv = command@;
    let ghost sv = opt_string(stdin);
    let c = SshCommand { command, stdin, timeout_ms };
    let r = exec(c);
    assert(call_ensures(*exec, (c,), r));
    r
}

pub open spec fn out_or_empty(out: Result<String, String>) -> Seq<char> {
    match out {
        Ok(o) => o@,
        Err(_) => seq![],
    }
}

pub open spec fn unit_of(out: Result<String, String>) -> Result<(), Seq<char>> {
    match out {
        Ok(_) => Ok(()),
        Err(e) => Err(e@),
    }
}

pub open spec fn unit_view(r: Result<(), String>) -> Result<(), Seq<char>> {
    match r {
        Ok(_) => Ok(()),
        Err(e) => Err(e@),
    }
}

fn to_unit(out: Result<String, String>) -> (r: Result<(), String>)
    ensures
        unit_view(r) == unit_of(out),
{
    match out {
        Ok(_) => Ok(()),
        Err(e) => Err(e),
    }
}


/// Argument lists of one to four words.
pub open spec fn args1(a: Seq<char>) -> Seq<Seq<char>> {
    seq![a]
}

pub open spec fn args2(a: Seq<char>, b: Seq<char>) -> Seq<Seq<char>> {
    seq![a, b]
}

pub open spec fn args3(a: Seq<char>, b: Seq<char>, c: Seq<char>) -> Seq<Seq<char>> {
    seq![a, b, c]
}

pub open spec fn args4(a: Seq<char>, b: Seq<char>, c: Seq<char>, d: Seq<char>) -> Seq<Seq<char>> {
    seq![a, b, c, d]
}

/// The command line that runs the remote Hermes CLI with these arguments.
fn hermes_cmd(args: &[&str]) -> (r: String)
    ensures
        r@ == remote_hermes_cmd(strs_view(args@)),
{
    build_remote_hermes_cmd(args)
}

// ───────────────────────── file I/O ─────────────────────────

pub open spec fn read_script_prefix() -> Seq<char> {
    r#"bash -c 'case "$1" in "~/"*) p="$HOME/${1#~/}" ;; "\$HOME/"*) p="$HOME/${1#\$HOME/}" ;; *) p="$1" ;; esac; cat -- "$p" 2>/dev/null || true' -- "#@
}

/// The command that prints a remote file.
pub open spec fn read_file_cmd(path: Seq<char>) -> Seq<char> {
    read_script_prefix() + shell_quoted(normalized_remote_path(path))
}

/// Reads a file on the remote host; a failed read reads as empty.
pub fn ssh_read_file<F: Fn(SshCommand) -> Result<String, String>>(remote_path: &str, exec: &F) -> (r:
    Result<String, String>)
    requires
        exec_ready(*exec),
    ensures
        exists|out: Result<String, String>|
            #![trigger ssh_ran(*exec, read_file_cmd(remote_path@), None, 10000, out)]
            ssh_ran(*exec, read_file_cmd(remote_path@), None, 10000, out) && (r matches Ok(s)
                && s@ == out_or_empty(out)),
{
    let p = chars_of(remote_path);
    let norm = normalize_remote_path_chars(&p);
    let q = shell_quote_chars(&norm);
    let mut c = chars_of(
        r#"bash -c 'case "$1" in "~/"*) p="$HOME/${1#~/}" ;; "\$HOME/"*) p="$HOME/${1#\$HOME/}" ;; *) p="$1" ;; esac; cat -- "$p" 2>/dev/null || true' -- "#,
    );
    push_all(&mut c, &q);
    assert(c@ =~= read_file_cmd(remote_path@));
    let out = run(exec, string_of(c.as_slice()), None, 10000);
    assert(ssh_ran(*exec, read_file_cmd(remote_path@), None, 10000, out));
    match out {
        Ok(o) => Ok(o),
        Err(_) => Ok(String::new()),
    }
}

pub open spec fn write_script_prefix() -> Seq<char> {
    r#"bash -c 'expand(){ case "$1" in "~/"*) printf "%s" "$HOME/${1#~/}" ;; "\$HOME/"*) printf "%s" "$HOME/${1#\$HOME/}" ;; *) printf "%s" "$1" ;; esac; }; dir=$(expand "$1"); file=$(expand "$2"); mkdir -p -- "$dir" && cat > "$file"' -- "#@
}

/// The directory part of a normalized path, `.` when it has no `/`.
pub open spec fn remote_dir(norm: Seq<char>) -> Seq<char> {
    match text::rfind_char(norm, '/') {
        Some(i) => norm.take(i),
        None => seq!['.'],
    }
}

/// The command that writes its standard input to a remote file.
pub open spec fn write_file_cmd(path: Seq<char>) -> Seq<char> {
    let norm = normalized_remote_path(path);
    write_script_prefix() + shell_quoted(remote_dir(norm)) + seq![' '] + shell_quoted(norm)
}

/// Writes content to a file on the remote host, creating its directory.
pub fn ssh_write_file<F: Fn(SshCommand) -> Result<String, String>>(
    remote_path: &str,
    content: &str,
    exec: &F,
) -> (r: Result<(), String>)
    requires
        exec_ready(*exec),
    ensures
        exists|out: Result<String, String>|
            #![trigger ssh_ran(*exec, write_file_cmd(remote_path@), Some(content@), 15000, out)]
            ssh_ran(*exec, write_file_cmd(remote_path@), Some(content@), 15000, out) && unit_view(r)
                == unit_of(out),
{
    let p = chars_of(remote_path);
    let norm = normalize_remote_path_chars(&p);
    let dir = match text::rfind_char_exec(&norm, '/') {
        Some(i) => text::slice(&norm, 0, i),
        None => vec!['.'],
    };
    assert(dir@ =~= remote_dir(norm@));
    let mut c = chars_of(
        r#"bash -c 'expand(){ case "$1" in "~/"*) printf "%s" "$HOME/${1#~/}" ;; "\$HOME/"*) printf "%s" "$HOME/${1#\$HOME/}" ;; *) printf "%s" "$1" ;; esac; }; dir=$(expand "$1"); file=$(expand "$2"); mkdir -p -- "$dir" && cat > "$file"' -- "#,
    );
    let qd = shell_quote_chars(&dir);
    push_all(&mut c, &qd);
    c.push(' ');
    let qn = shell_quote_chars(&norm);
    push_all(&mut c, &qn);
    assert(c@ =~= write_file_cmd(remote_path@));
    let out = run(exec, string_of(c.as_slice()), Some(String::from_str(content)), 15000);
    to_unit(out)
}

/// `SOUL.md` of a profile on the remote host.
pub open spec fn soul_path(profile: Option<Seq<char>>) -> Seq<char> {
    remote_profile_dir(profile) + "/SOUL.md"@
}

/// The file a remote soul is written to is the file it is read from: both
/// commands take the same normalized path, which for no profile and for
/// `default` is `~/.hermes/SOUL.md`, and for any other profile
/// `~/.hermes/profiles/<name>/SOUL.md`. What the remote shell then does
/// with the file is outside the library.
pub proof fn law_soul_file(profile: Option<Seq<char>>)
    ensures
        soul_path(profile) == (match profile {
            Some(p) => if p != "default"@ {
                "~/.hermes/profiles/"@ + p + "/SOUL.md"@
            } else {
                "~/.hermes/SOUL.md"@
            },
            None => "~/.hermes/SOUL.md"@,
        }),
        read_file_cmd(soul_path(profile)) == read_script_prefix() + shell_quoted(
            normalized_remote_path(soul_path(profile)),
        ),
        write_file_cmd(soul_path(profile)) == write_script_prefix() + shell_quoted(
            remote_dir(normalized_remote_path(soul_path(profile))),
        ) + seq![' '] + shell_quoted(normalized_remote_path(soul_path(profile))),
{
    reveal_strlit("~/.hermes");
    reveal_strlit("/SOUL.md");
    reveal_strlit("~/.hermes/SOUL.md");
    assert("~/.hermes"@ + "/SOUL.md"@ =~= "~/.hermes/SOUL.md"@);
}

/// Remote: read soul.
pub fn ssh_read_soul<F: Fn(SshCommand) -> Result<String, String>>(
    profile: Option<&str>,
    exec: &F,
) -> (r: Result<String, String>)
    requires
        exec_ready(*exec),
    ensures
        exists|out: Result<String, String>|
            #![trigger ssh_ran(*exec, read_file_cmd(soul_path(opt_view(profile))), None, 10000, out)]
            ssh_ran(*exec, read_file_cmd(soul_path(opt_view(profile))), None, 10000, out)
                && (r matches Ok(s) && s@ == out_or_empty(out)),
{
    let base = remote_profile_path(profile);
    let path = text::concat2(base.as_str(), "/SOUL.md");
    assert(path@ =~= soul_path(opt_view(profile)));
    ssh_read_file(path.as_str(), exec)
}

/// Remote: write soul.
pub fn ssh_write_soul<F: Fn(SshCommand) -> Result<String, String>>(
    profile: Option<&str>,
    content: &str,
    exec: &F,
) -> (r: Result<(), String>)
    requires
        exec_ready(*exec),
    ensures
        exists|out: Result<String, String>|
            #![trigger ssh_ran(*exec, write_file_cmd(soul_path(opt_view(profile))), Some(content@), 15000, out)]
            ssh_ran(*exec, write_file_cmd(soul_path(opt_view(profile))), Some(content@), 15000, out)
                && unit_view(r) == unit_of(out),
{
    let base = remote_profile_path(profile);
    let path = text::concat2(base.as_str(), "/SOUL.md");
    assert(path@ =~= soul_path(opt_view(profile)));
    ssh_write_file(path.as_str(), content, exec)
}

// ───────────────────────── CLI operations ─────────────────────────

/// Runs the remote Hermes CLI with `args` and returns its output.
fn run_hermes<F: Fn(SshCommand) -> Result<String, String>>(
    args: &[&str],
    timeout_ms: u64,
    exec: &F,
) -> (r: Result<String, String>)
    requires
        exec_ready(*exec),
    ensures
        ssh_ran(*exec, remote_hermes_cmd(strs_view(args@)), None, timeout_ms, r),
{
    let cmd = hermes_cmd(args);
    run(exec, cmd, None, timeout_ms)
}

/// The value that `hermes config get KEY --json` printed: `None` for empty or `null`.
pub open spec fn config_value_of(out: Result<String, String>) -> Option<Seq<char>> {
    match out {
        Ok(o) => if trim(o@).len() == 0 || trim(o@) == "null"@ {
            None
        } else {
            Some(trim(o@))
        },
        Err(_) => None,
    }
}

/// Remote: get config value.
pub fn ssh_get_config_value<F: Fn(SshCommand) -> Result<String, String>>(
    key: &str,
    exec: &F,
) -> (r: Result<Option<String>, String>)
    requires
        exec_ready(*exec),
    ensures
        exists|out: Result<String, String>|
            #![trigger ssh_ran(*exec, remote_hermes_cmd(args4("config"@, "get"@, key@, "--json"@)), None, 10000, out)]
            ssh_ran(
                *exec,
                remote_hermes_cmd(args4("config"@, "get"@, key@, "--json"@)),
                None,
                10000,
                out,
            ) && (r matches Ok(v) && opt_string(v) == config_value_of(out)),
{
    let args = [ "config", "get", key, "--json" ];
    assert(strs_view(args@) =~= args4("config"@, "get"@, key@, "--json"@));
    let out = run_hermes(&args, 10000, exec);
    match out {
        Ok(o) => {
            let t = text::trim_str(o.as_str());
            if t.as_str().unicode_len() == 0 || text::str_eq(t.as_str(), "null") {
                Ok(None)
            } else {
                Ok(Some(t))
            }
        },
        Err(_) => Ok(None),
    }
}

/// Remote: set config value.
pub fn ssh_set_config_value<F: Fn(SshCommand) -> Result<String, String>>(
    key: &str,
    value: &str,
    exec: &F,
) -> (r: Result<(), String>)
    requires
        exec_ready(*exec),
    ensures
        exists|out: Result<String, String>|
            #![trigger ssh_ran(*exec, remote_hermes_cmd(args4("config"@, "set"@, key@, value@)), None, 10000, out)]
            ssh_ran(*exec, remote_hermes_cmd(args4("config"@, "set"@, key@, value@)), None, 10000, out)
                && unit_view(r) == unit_of(out),
{
    let args = [ "config", "set", key, value ];
    assert(strs_view(args@) =~= args4("config"@, "set"@, key@, value@));
    to_unit(run_hermes(&args, 10000, exec))
}

/// Remote: delete profile.
pub fn ssh_delete_profile<F: Fn(SshCommand) -> Result<String, String>>(name: &str, exec: &F) -> (r:
    Result<(), String>)
    requires
        exec_ready(*exec),
    ensures
        exists|out: Result<String, String>|
            #![trigger ssh_ran(*exec, remote_hermes_cmd(args3("profile"@, "delete"@, name@)), None, 10000, out)]
            ssh_ran(*exec, remote_hermes_cmd(args3("profile"@, "delete"@, name@)), None, 10000, out)
                && unit_view(r) == unit_of(out),
{
    let args = [ "profile", "delete", name ];
    assert(strs_view(args@) =~= args3("profile"@, "delete"@, name@));
    to_unit(run_hermes(&args, 10000, exec))
}

pub open spec fn enable_word(enabled: bool) -> Seq<char> {
    if enabled {
        "enable"@
    } else {
        "disable"@
    }
}

/// Remote: set toolset enabled.
pub fn ssh_set_toolset_enabled<F: Fn(SshCommand) -> Result<String, String>>(
    name: &str,
    enabled: bool,
    exec: &F,
) -> (r: Result<(), String>)
    requires
        exec_ready(*exec),
    ensures
        exists|out: Result<String, String>|
            #![trigger ssh_ran(*exec, remote_hermes_cmd(args3("tools"@, enable_word(enabled), name@)), None, 10000, out)]
            ssh_ran(
                *exec,
                remote_hermes_cmd(args3("tools"@, enable_word(enabled), name@)),
                None,
                10000,
                out,
            ) && unit_view(r) == unit_of(out),
{
    let action = if enabled {
        "enable"
    } else {
        "disable"
    };
    let args = [ "tools", action, name ];
    assert(strs_view(args@) =~= args3("tools"@, enable_word(enabled), name@));
    to_unit(run_hermes(&args, 10000, exec))
}

/// Remote: remove model.
pub fn ssh_remove_model<F: Fn(SshCommand) -> Result<String, String>>(id: &str, exec: &F) -> (r:
    Result<(), String>)
    requires
        exec_ready(*exec),
    ensures
        exists|out: Result<String, String>|
            #![trigger ssh_ran(*exec, remote_hermes_cmd(args3("models"@, "remove"@, id@)), None, 10000, out)]
            ssh_ran(*exec, remote_hermes_cmd(args3("models"@, "remove"@, id@)), None, 10000, out)
                && unit_view(r) == unit_of(out),
{
    let args = [ "models", "remove", id ];
    assert(strs_view(args@) =~= args3("models"@, "remove"@, id@));
    to_unit(run_hermes(&args, 10000, exec))
}

/// Whether `hermes gateway status` reported a running gateway.
pub open spec fn gateway_running(out: Result<String, String>) -> Result<bool, Seq<char>> {
    match out {
        Ok(o) => Ok(text::contains_sub(trim(o@), "running"@)),
        Err(e) => Err(e@),
    }
}

pub open spec fn bool_result(r: Result<bool, String>) -> Result<bool, Seq<char>> {
    match r {
        Ok(b) => Ok(b),
        Err(e) => Err(e@),
    }
}

/// Remote: gateway status.
pub fn ssh_gateway_status<F: Fn(SshCommand) -> Result<String, String>>(exec: &F) -> (r: Result<
    bool,
    String,
>)
    requires
        exec_ready(*exec),
    ensures
        exists|out: Result<String, String>|
            #![trigger ssh_ran(*exec, remote_hermes_cmd(args2("gateway"@, "status"@)), None, 10000, out)]
            ssh_ran(*exec, remote_hermes_cmd(args2("gateway"@, "status"@)), None, 10000, out)
                && bool_result(r) == gateway_running(out),
{
    let args = [ "gateway", "status" ];
    assert(strs_view(args@) =~= args2("gateway"@, "status"@));
    match run_hermes(&args, 10000, exec) {
        Ok(o) => {
            let t = text::trim_str(o.as_str());
            Ok(text::str_contains(t.as_str(), "running"))
        },
        Err(e) => Err(e),
    }
}

/// Remote: start gateway.
pub fn ssh_start_gateway<F: Fn(SshCommand) -> Result<String, String>>(exec: &F) -> (r: Result<
    (),
    String,
>)
    requires
        exec_ready(*exec),
    ensures
        exists|out: Result<String, String>|
            #![trigger ssh_ran(*exec, remote_hermes_cmd(args2("gateway"@, "start"@)), None, 30000, out)]
            ssh_ran(*exec, remote_hermes_cmd(args2("gateway"@, "start"@)), None, 30000, out)
                && unit_view(r) == unit_of(out),
{
    let args = [ "gateway", "start" ];
    assert(strs_view(args@) =~= args2("gateway"@, "start"@));
    to_unit(run_hermes(&args, 30000, exec))
}

/// Remote: stop gateway.
pub fn ssh_stop_gateway<F: Fn(SshCommand) -> Result<String, String>>(exec: &F) -> (r: Result<
    (),
    String,
>)
    requires
        exec_ready(*exec),
    ensures
        exists|out: Result<String, String>|
            #![trigger ssh_ran(*exec, remote_hermes_cmd(args2("gateway"@, "stop"@)), None, 15000, out)]
            ssh_ran(*exec, remote_hermes_cmd(args2("gateway"@, "stop"@)), None, 15000, out)
                && unit_view(r) == unit_of(out),
{
    let args = [ "gateway", "stop" ];
    assert(strs_view(args@) =~= args2("gateway"@, "stop"@));
    to_unit(run_hermes(&args, 15000, exec))
}

/// Remote: run hermes doctor.
pub fn ssh_run_doctor<F: Fn(SshCommand) -> Result<String, String>>(exec: &F) -> (r: Result<
    String,
    String,
>)
    requires
        exec_ready(*exec),
    ensures
        ssh_ran(*exec, remote_hermes_cmd(args1("doctor"@)), None, 30000, r),
{
    let args = [ "doctor" ];
    assert(strs_view(args@) =~= args1("doctor"@));
    run_hermes(&args, 30000, exec)
}

/// Remote: run hermes update.
pub fn ssh_run_update<F: Fn(SshCommand) -> Result<String, String>>(exec: &F) -> (r: Result<
    String,
    String,
>)
    requires
        exec_ready(*exec),
    ensures
        ssh_ran(*exec, remote_hermes_cmd(args1("update"@)), None, 60000, r),
{
    let args = [ "update" ];
    assert(strs_view(args@) =~= args1("update"@));
    run_hermes(&args, 60000, exec)
}

/// Remote: run hermes dump.
pub fn ssh_run_dump<F: Fn(SshCommand) -> Result<String, String>>(exec: &F) -> (r: Result<
    String,
    String,
>)
    requires
        exec_ready(*exec),
    ensures
        ssh_ran(*exec, remote_hermes_cmd(args1("dump"@)), None, 30000, r),
{
    let args = [ "dump" ];
    assert(strs_view(args@) =~= args1("dump"@));
    run_hermes(&args, 30000, exec)
}

/// Remote: set platform enabled.
pub fn ssh_set_platform_enabled<F: Fn(SshCommand) -> Result<String, String>>(
    platform: &str,
    enabled: bool,
    exec: &F,
) -> (r: Result<(), String>)
    requires
        exec_ready(*exec),
    ensures
        exists|out: Result<String, String>|
            #![trigger ssh_ran(*exec, remote_hermes_cmd(args3("platforms"@, enable_word(enabled), platform@)), None, 10000, out)]
            ssh_ran(
                *exec,
                remote_hermes_cmd(args3("platforms"@, enable_word(enabled), platform@)),
                None,
                10000,
                out,
            ) && unit_view(r) == unit_of(out),
{
    let action = if enabled {
        "enable"
    } else {
        "disable"
    };
    let args = [ "platforms", action, platform ];
    assert(strs_view(args@) =~= args3("platforms"@, enable_word(enabled), platform@));
    to_unit(run_hermes(&args, 10000, exec))
}

/// Remote: run a kanban command (`hermes kanban ARGS...`).
pub fn ssh_run_kanban<F: Fn(SshCommand) -> Result<String, String>>(args: &[&str], exec: &F) -> (r:
    Result<String, String>)
    requires
        exec_ready(*exec),
    ensures
        ssh_ran(*exec, remote_hermes_cmd(args1("kanban"@) + strs_view(args@)), None, 20000, r),
{
    let mut full: Vec<&str> = Vec::new();
    full.push("kanban");
    let mut i: usize = 0;
    while i < args.len()
        invariant
            i <= args@.len(),
            strs_view(full@) == seq!["kanban"@] + strs_view(args@.take(i as int)),
        decreases args@.len() - i,
    {
        let ghost f0 = full@;
        full.push(args[i]);
        proof {
            assert(full@ == f0.push(args@[i as int]));
            assert(args@.take(i + 1) =~= args@.take(i as int).push(args@[i as int]));
            assert(strs_view(full@) =~= strs_view(f0).push(args@[i as int]@));
            assert(strs_view(args@.take(i + 1)) =~= strs_view(args@.take(i as int)).push(args@[i as int]@));
            assert(strs_view(full@) =~= seq!["kanban"@] + strs_view(args@.take(i + 1)));
        }
        i += 1;
    }
    assert(args@.take(args@.len() as int) =~= args@);
    run_hermes(full.as_slice(), 20000, exec)
}

/// Remote: read hermes version (`None` when the command failed).
pub fn ssh_get_hermes_version<F: Fn(SshCommand) -> Result<String, String>>(exec: &F) -> (r: Result<
    Option<String>,
    String,
>)
    requires
        exec_ready(*exec),
    ensures
        exists|out: Result<String, String>|
            #![trigger ssh_ran(*exec, "hermes --version"@, None, 10000, out)]
            ssh_ran(*exec, "hermes --version"@, None, 10000, out) && (r matches Ok(v) && opt_string(v)
                == match out {
                Ok(o) => Some(trim(o@)),
                Err(_) => None,
            }),
{
    match run(exec, String::from_str("hermes --version"), None, 10000) {
        Ok(o) => Ok(Some(text::trim_str(o.as_str()))),
        Err(_) => Ok(None),
    }
}

// ───────────────────────── remote .env ─────────────────────────

/// `s.trim_matches('"')`.
pub open spec fn trim_dquotes(s: Seq<char>) -> Seq<char>
    decreases s.len(),
{
    if s.len() > 0 && s[0] == '"' {
        trim_dquotes(s.drop_first())
    } else if s.len() > 0 && s.last() == '"' {
        trim_dquotes(s.drop_last())
    } else {
        s
    }
}

/// The `KEY=VALUE` assignments of a remote `.env` in order: comment lines and
/// lines without `=` are skipped; key and value are trimmed, the value also
/// loses surrounding `"` characters.
pub open spec fn remote_env_pairs(ls: Seq<Seq<char>>) -> Seq<(Seq<char>, Seq<char>)>
    decreases ls.len(),
{
    if ls.len() == 0 {
        seq![]
    } else {
        let prev = remote_env_pairs(ls.drop_last());
        let t = trim(ls.last());
        if starts_with(t, seq!['#']) {
            prev
        } else {
            match text::find_sub(t, seq!['=']) {
                Some(i) => prev.push((trim(t.take(i)), trim_dquotes(trim(t.skip(i + 1))))),
                None => prev,
            }
        }
    }
}

/// The variables of a remote `.env` text.
pub open spec fn remote_env_map(content: Seq<char>) -> Map<Seq<char>, Seq<char>> {
    pairs_map(remote_env_pairs(lines(content)))
}

fn trim_dquotes_chars(s: &Vec<char>) -> (r: Vec<char>)
    ensures
        r@ == trim_dquotes(s@),
{
    let mut lo: usize = 0;
    let mut hi: usize = s.len();
    assert(s@.subrange(0, s.len() as int) =~= s@);
    while lo < hi && (s[lo] == '"' || s[hi - 1] == '"')
        invariant
            lo <= hi <= s.len(),
            trim_dquotes(s@) == trim_dquotes(s@.subrange(lo as int, hi as int)),
        decreases hi - lo,
    {
        let ghost t = s@.subrange(lo as int, hi as int);
        if s[lo] == '"' {
            assert(t.drop_first() =~= s@.subrange(lo + 1, hi as int));
            lo += 1;
        } else {
            assert(t.drop_last() =~= s@.subrange(lo as int, hi - 1));
            hi -= 1;
        }
    }
    proof {
        if lo == 0 && hi == s.len() {
            assert(s@.subrange(0, s.len() as int) =~= s@);
        }
    }
    text::slice(s, lo, hi)
}

/// Parses the text of a remote `.env`.
pub fn parse_remote_env(content: &str) -> (r: StrMap)
    ensures
        r@ == remote_env_map(content@),
{
    let c = chars_of(content);
    let ls = text::lines_exec(&c);
    let ghost all = lines(c@);
    let mut m = StrMap::new();
    let ghost mut pairs: Seq<(Seq<char>, Seq<char>)> = seq![];
    let eq: Vec<char> = vec!['='];
    assert(eq@ =~= seq!['=']);
    let mut i: usize = 0;
    while i < ls.len()
        invariant
            i <= ls.len(),
            all == lines(c@),
            ls@.len() == all.len(),
            forall|k: int| 0 <= k < ls@.len() ==> #[trigger] ls@[k]@ == all[k],
            eq@ == seq!['='],
            pairs == remote_env_pairs(all.take(i as int)),
            m@ == pairs_map(pairs),
        decreases ls.len() - i,
    {
        proof {
            assert(all.take(i + 1).drop_last() =~= all.take(i as int));
            assert(all.take(i + 1).last() == ls@[i as int]@);
        }
        let t = text::trim_vec(&ls[i]);
        let hash: Vec<char> = vec!['#'];
        assert(hash@ =~= seq!['#']);
        if !text::starts_with_exec(&t, &hash) {
            assert(t@.skip(0) =~= t@);
            match text::find_from(&t, &eq, 0) {
                Some(j) => {
                    proof {
                        text::lemma_find_sub(t@, seq!['=']);
                    }
                    let k = text::trim_range(&t, 0, j);
                    let v0 = text::trim_range(&t, j + 1, t.len());
                    let v = trim_dquotes_chars(&v0);
                    proof {
                        assert(t@.subrange(0, j as int) =~= t@.take(j as int));
                        assert(t@.subrange(j + 1, t@.len() as int) =~= t@.skip(j + 1));
                        pairs = pairs.push((k@, v@));
                        assert(pairs.drop_last() =~= remote_env_pairs(all.take(i as int)));
                    }
                    m.insert(string_of(k.as_slice()), string_of(v.as_slice()));
                },
                None => {},
            }
        }
        i += 1;
    }
    assert(all.take(ls.len() as int) =~= all);
    m
}

/// `.env` of a profile on the remote host.
pub open spec fn env_path(profile: Option<Seq<char>>) -> Seq<char> {
    remote_profile_dir(profile) + "/.env"@
}

/// Remote: read env file (an unreadable file reads as empty).
pub fn ssh_read_env<F: Fn(SshCommand) -> Result<String, String>>(
    profile: Option<&str>,
    exec: &F,
) -> (r: Result<StrMap, String>)
    requires
        exec_ready(*exec),
    ensures
        exists|out: Result<String, String>|
            #![trigger ssh_ran(*exec, read_file_cmd(env_path(opt_view(profile))), None, 10000, out)]
            ssh_ran(*exec, read_file_cmd(env_path(opt_view(profile))), None, 10000, out)
                && (r matches Ok(m) && m@ == remote_env_map(out_or_empty(out))),
{
    let base = remote_profile_path(profile);
    let path = text::concat2(base.as_str(), "/.env");
    assert(path@ =~= env_path(opt_view(profile)));
    let content = match ssh_read_file(path.as_str(), exec) {
        Ok(c) => c,
        Err(_) => String::new(),
    };
    Ok(parse_remote_env(content.as_str()))
}

/// Remote: read the remote API server key (empty when unset).
pub fn ssh_read_remote_api_key<F: Fn(SshCommand) -> Result<String, String>>(exec: &F) -> (r:
    Result<String, String>)
    requires
        exec_ready(*exec),
    ensures
        exists|out: Result<String, String>|
            #![trigger ssh_ran(*exec, read_file_cmd(env_path(None)), None, 10000, out)]
            ssh_ran(*exec, read_file_cmd(env_path(None)), None, 10000, out) && (r matches Ok(k)
                && k@ == (if remote_env_map(out_or_empty(out)).contains_key("API_SERVER_KEY"@) {
                remote_env_map(out_or_empty(out))["API_SERVER_KEY"@]
            } else {
                seq![]
            })),
{
    let env = match ssh_read_env(None, exec) {
        Ok(m) => m,
        Err(_) => StrMap::new(),
    };
    match env.get("API_SERVER_KEY") {
        Some(k) => Ok(k),
        None => Ok(String::new()),
    }
}


// ───────────────────────── running a command ─────────────────────────

/// The state of the SSH tunnel to the remote API.
pub enum SshTunnelState {
    Connected { local_port: u16, remote_host: String, remote_port: u16 },
    Disconnected,
}

/// The answer of a connection test.
pub struct SshConnectionResult {
    pub success: bool,
    pub message: String,
}

/// How a run of `ssh` ended.
pub enum ExecReport {
    /// The process could not be started.
    SpawnFailed(String),
    /// It exited, successfully or not, with this output.
    Exited { success: bool, stdout: String, stderr: String },
    /// It ran past its time and was killed.
    TimedOut,
    /// Waiting for it failed.
    WaitFailed(String),
}

/// What a run of `ssh` returns: the output on success; otherwise the
/// cleaned-up error output (or a generic message when that is empty), or
/// what went wrong.
pub fn exec_outcome(report: ExecReport) -> (r: Result<String, String>)
    ensures
        match report {
            ExecReport::SpawnFailed(e) => r matches Err(m) && m@ == "SSH spawn failed: "@ + e@,
            ExecReport::Exited { success, stdout, stderr } => if success {
                r matches Ok(o) && o@ == stdout@
            } else {
                r matches Err(m) && m@ == (if sanitized_error(stderr@).len() == 0 { "SSH command failed"@ } else { sanitized_error(stderr@) })
            },
            ExecReport::TimedOut => r matches Err(m) && m@ == "SSH command timed out"@,
            ExecReport::WaitFailed(e) => r matches Err(m) && m@ == "SSH wait error: "@ + e@,
        },
{
    match report {
        ExecReport::SpawnFailed(e) => Err(text::concat2("SSH spawn failed: ", e.as_str())),
        ExecReport::Exited { success, stdout, stderr } => {
            if success {
                Ok(stdout)
            } else {
                let err = sanitize_ssh_error(stderr.as_str());
                let ec = chars_of(err.as_str());
                if ec.len() == 0 { Err(text::owned("SSH command failed")) } else { Err(err) }
            }
        },
        ExecReport::TimedOut => Err(text::owned("SSH command timed out")),
        ExecReport::WaitFailed(e) => Err(text::concat2("SSH wait error: ", e.as_str())),
    }
}

/// Whether a run has gone past its time (and is killed).
pub fn exec_timed_out(elapsed_ms: u64, timeout_ms: u64) -> (b: bool)
    ensures
        b == (elapsed_ms > timeout_ms),
{
    elapsed_ms > timeout_ms
}

/// Runs a Python program on the remote host: `python3 -c '<script>'`.
pub fn ssh_python<F: Fn(SshCommand) -> Result<String, String>>(
    script: &str,
    stdin_payload: Option<&str>,
    timeout_ms: u64,
    exec: &F,
) -> (r: Result<String, String>)
    requires
        exec_ready(*exec),
    ensures
        ssh_ran(*exec, "python3 -c "@ + shell_quoted(script@), crate::paths::opt_view(stdin_payload), timeout_ms, r),
{
    let q = shell_quote(script);
    let cmd = text::concat2("python3 -c ", q.as_str());
    let stdin = match stdin_payload {
        Some(s) => Some(text::owned(s)),
        None => None,
    };
    run(exec, cmd, stdin, timeout_ms)
}

// ───────────────────────── listings ─────────────────────────

/// A listing's output read as a JSON array; anything else is no items.
pub open spec fn json_list(o: Seq<char>) -> Seq<Json> {
    match json_parse(o) {
        Some(Json::Array(a)) => a,
        _ => seq![],
    }
}

pub open spec fn list_result(out: Result<String, String>) -> Result<Seq<Json>, Seq<char>> {
    match out {
        Ok(o) => Ok(json_list(o@)),
        Err(e) => Err(e@),
    }
}

pub open spec fn list_view(r: Result<Vec<JsonValue>, String>) -> Result<Seq<Json>, Seq<char>> {
    match r {
        Ok(v) => Ok(items_view(v@)),
        Err(e) => Err(e@),
    }
}

fn parse_list(out: Result<String, String>) -> (r: Result<Vec<JsonValue>, String>)
    ensures
        list_view(r) == list_result(out),
{
    match out {
        Ok(o) => match parse_json(o.as_str()) {
            Some(JsonValue::Array(a)) => Ok(a),
            _ => {
                let e: Vec<JsonValue> = Vec::new();
                assert(items_view(e@) =~= seq![]);
                Ok(e)
            },
        },
        Err(e) => Err(e),
    }
}

/// Runs a listing command and reads its output.
fn run_list<F: Fn(SshCommand) -> Result<String, String>>(args: &[&str], timeout_ms: u64, exec: &F) -> (r: Result<Vec<JsonValue>, String>)
    requires
        exec_ready(*exec),
    ensures
        exists|out: Result<String, String>|
            #![trigger ssh_ran(*exec, remote_hermes_cmd(strs_view(args@)), None, timeout_ms, out)]
            ssh_ran(*exec, remote_hermes_cmd(strs_view(args@)), None, timeout_ms, out)
                && list_view(r) == list_result(out),
{
    let out = run_hermes(args, timeout_ms, exec);
    parse_list(out)
}

/// Remote: installed skills (`skills list --json`).
pub fn ssh_list_installed_skills<F: Fn(SshCommand) -> Result<String, String>>(exec: &F) -> (r: Result<Vec<JsonValue>, String>)
    requires
        exec_ready(*exec),
    ensures
        exists|out: Result<String, String>|
            #![trigger ssh_ran(*exec, remote_hermes_cmd(args3("skills"@, "list"@, "--json"@)), None, 15000, out)]
            ssh_ran(*exec, remote_hermes_cmd(args3("skills"@, "list"@, "--json"@)), None, 15000, out)
                && list_view(r) == list_result(out),
{
    let args = ["skills", "list", "--json"];
    assert(strs_view(args@) =~= args3("skills"@, "list"@, "--json"@));
    run_list(&args, 15000, exec)
}

/// Remote: profiles (`profile list --json`).
pub fn ssh_list_profiles<F: Fn(SshCommand) -> Result<String, String>>(exec: &F) -> (r: Result<Vec<JsonValue>, String>)
    requires
        exec_ready(*exec),
    ensures
        exists|out: Result<String, String>|
            #![trigger ssh_ran(*exec, remote_hermes_cmd(args3("profile"@, "list"@, "--json"@)), None, 15000, out)]
            ssh_ran(*exec, remote_hermes_cmd(args3("profile"@, "list"@, "--json"@)), None, 15000, out)
                && list_view(r) == list_result(out),
{
    let args = ["profile", "list", "--json"];
    assert(strs_view(args@) =~= args3("profile"@, "list"@, "--json"@));
    run_list(&args, 15000, exec)
}

/// Remote: enabled toolsets (`tools list --enabled --json`).
pub fn ssh_get_toolsets<F: Fn(SshCommand) -> Result<String, String>>(exec: &F) -> (r: Result<Vec<JsonValue>, String>)
    requires
        exec_ready(*exec),
    ensures
        exists|out: Result<String, String>|
            #![trigger ssh_ran(*exec, remote_hermes_cmd(args4("tools"@, "list"@, "--enabled"@, "--json"@)), None, 10000, out)]
            ssh_ran(*exec, remote_hermes_cmd(args4("tools"@, "list"@, "--enabled"@, "--json"@)), None, 10000, out)
                && list_view(r) == list_result(out),
{
    let args = ["tools", "list", "--enabled", "--json"];
    assert(strs_view(args@) =~= args4("tools"@, "list"@, "--enabled"@, "--json"@));
    run_list(&args, 10000, exec)
}

/// Remote: a session's messages (`sessions messages <id> --json`).
pub fn ssh_get_session_messages<F: Fn(SshCommand) -> Result<String, String>>(session_id: &str, exec: &F) -> (r: Result<Vec<JsonValue>, String>)
    requires
        exec_ready(*exec),
    ensures
        exists|out: Result<String, String>|
            #![trigger ssh_ran(*exec, remote_hermes_cmd(args4("sessions"@, "messages"@, session_id@, "--json"@)), None, 15000, out)]
            ssh_ran(*exec, remote_hermes_cmd(args4("sessions"@, "messages"@, session_id@, "--json"@)), None, 15000, out)
                && list_view(r) == list_result(out),
{
    let args = ["sessions", "messages", session_id, "--json"];
    assert(strs_view(args@) =~= args4("sessions"@, "messages"@, session_id@, "--json"@));
    run_list(&args, 15000, exec)
}

/// Remote: saved models (`models list --json`).
pub fn ssh_list_models<F: Fn(SshCommand) -> Result<String, String>>(exec: &F) -> (r: Result<Vec<JsonValue>, String>)
    requires
        exec_ready(*exec),
    ensures
        exists|out: Result<String, String>|
            #![trigger ssh_ran(*exec, remote_hermes_cmd(args3("models"@, "list"@, "--json"@)), None, 10000, out)]
            ssh_ran(*exec, remote_hermes_cmd(args3("models"@, "list"@, "--json"@)), None, 10000, out)
                && list_view(r) == list_result(out),
{
    let args = ["models", "list", "--json"];
    assert(strs_view(args@) =~= args3("models"@, "list"@, "--json"@));
    run_list(&args, 10000, exec)
}

/// Remote: memory providers (`memory list-providers --json`).
pub fn ssh_discover_memory_providers<F: Fn(SshCommand) -> Result<String, String>>(exec: &F) -> (r: Result<Vec<JsonValue>, String>)
    requires
        exec_ready(*exec),
    ensures
        exists|out: Result<String, String>|
            #![trigger ssh_ran(*exec, remote_hermes_cmd(args3("memory"@, "list-providers"@, "--json"@)), None, 10000, out)]
            ssh_ran(*exec, remote_hermes_cmd(args3("memory"@, "list-providers"@, "--json"@)), None, 10000, out)
                && list_view(r) == list_result(out),
{
    let args = ["memory", "list-providers", "--json"];
    assert(strs_view(args@) =~= args3("memory"@, "list-providers"@, "--json"@));
    run_list(&args, 10000, exec)
}

/// Remote: MCP servers (`mcp list --json`).
pub fn ssh_list_mcp_servers<F: Fn(SshCommand) -> Result<String, String>>(exec: &F) -> (r: Result<Vec<JsonValue>, String>)
    requires
        exec_ready(*exec),
    ensures
        exists|out: Result<String, String>|
            #![trigger ssh_ran(*exec, remote_hermes_cmd(args3("mcp"@, "list"@, "--json"@)), None, 10000, out)]
            ssh_ran(*exec, remote_hermes_cmd(args3("mcp"@, "list"@, "--json"@)), None, 10000, out)
                && list_view(r) == list_result(out),
{
    let args = ["mcp", "list", "--json"];
    assert(strs_view(args@) =~= args3("mcp"@, "list"@, "--json"@));
    run_list(&args, 10000, exec)
}

/// `--flag <n>` when a number is given.
pub open spec fn num_flag(flag: Seq<char>, n: Option<u32>) -> Seq<Seq<char>> {
    match n {
        Some(k) => seq![flag, text::dec_text(k as nat)],
        None => seq![],
    }
}

fn push_num_flag(args: &mut Vec<String>, flag: &str, n: Option<u32>)
    ensures
        strings_view(final(args)@) == strings_view(old(args)@) + num_flag(flag@, n),
{
    let ghost before = strings_view(args@);
    match n {
        Some(k) => {
            args.push(text::owned(flag));
            args.push(text::dec_string(k as u64));
        },
        None => {},
    }
    assert(strings_view(args@) =~= before + num_flag(flag@, n));
}

fn refs_of<'a>(args: &'a Vec<String>) -> (r: Vec<&'a str>)
    ensures
        strs_view(r@) == strings_view(args@),
{
    let mut refs: Vec<&str> = Vec::new();
    let mut i: usize = 0;
    while i < args.len()
        invariant
            i <= args.len(),
            strs_view(refs@) =~= strings_view(args@).take(i as int),
        decreases args.len() - i,
    {
        let ghost before = refs@;
        let a = args[i].as_str();
        refs.push(a);
        assert(strs_view(refs@) =~= strs_view(before).push(a@));
        assert(strings_view(args@).take(i + 1) =~= strings_view(args@).take(i as int).push(args@[i as int]@));
        i += 1;
    }
    assert(strings_view(args@).take(args.len() as int) =~= strings_view(args@));
    refs
}

fn run_list_owned<F: Fn(SshCommand) -> Result<String, String>>(args: &Vec<String>, timeout_ms: u64, exec: &F) -> (r: Result<Vec<JsonValue>, String>)
    requires
        exec_ready(*exec),
    ensures
        exists|out: Result<String, String>|
            #![trigger ssh_ran(*exec, remote_hermes_cmd(strings_view(args@)), None, timeout_ms, out)]
            ssh_ran(*exec, remote_hermes_cmd(strings_view(args@)), None, timeout_ms, out)
                && list_view(r) == list_result(out),
{
    let refs = refs_of(&args);
    let out = run_hermes(refs.as_slice(), timeout_ms, exec);
    parse_list(out)
}

pub open spec fn session_list_args(limit: Option<u32>, offset: Option<u32>) -> Seq<Seq<char>> {
    seq!["sessions"@, "list"@, "--json"@] + num_flag("--limit"@, limit) + num_flag("--offset"@, offset)
}

pub open spec fn session_search_args(query: Seq<char>, limit: Option<u32>) -> Seq<Seq<char>> {
    seq!["sessions"@, "search"@, query, "--json"@] + num_flag("--limit"@, limit)
}

pub open spec fn profile_create_args(name: Seq<char>, clone: bool) -> Seq<Seq<char>> {
    seq!["profile"@, "create"@, name, "--json"@] + if clone { seq!["--clone"@] } else { seq![] }
}

pub open spec fn logs_args(log_file: Option<Seq<char>>, lines_wanted: Option<u32>) -> Seq<Seq<char>> {
    seq!["logs"@] + (match log_file { Some(f) => seq![f], None => seq![] }) + num_flag("--lines"@, lines_wanted)
}

/// Remote: sessions, a page at a time (`sessions list --json [--limit n] [--offset n]`).
pub fn ssh_list_sessions<F: Fn(SshCommand) -> Result<String, String>>(limit: Option<u32>, offset: Option<u32>, exec: &F) -> (r: Result<Vec<JsonValue>, String>)
    requires
        exec_ready(*exec),
    ensures
        exists|out: Result<String, String>|
            #![trigger ssh_ran(*exec, remote_hermes_cmd(session_list_args(limit, offset)), None, 15000, out)]
            ssh_ran(*exec, remote_hermes_cmd(session_list_args(limit, offset)), None, 15000, out)
                && list_view(r) == list_result(out),
{
    let mut args: Vec<String> = Vec::new();
    args.push(text::owned("sessions"));
    args.push(text::owned("list"));
    args.push(text::owned("--json"));
    assert(strings_view(args@) =~= seq!["sessions"@, "list"@, "--json"@]);
    push_num_flag(&mut args, "--limit", limit);
    push_num_flag(&mut args, "--offset", offset);
    assert(strings_view(args@) =~= session_list_args(limit, offset));
    run_list_owned(&args, 15000, exec)
}

/// Remote: search sessions (`sessions search <query> --json [--limit n]`).
pub fn ssh_search_sessions<F: Fn(SshCommand) -> Result<String, String>>(query: &str, limit: Option<u32>, exec: &F) -> (r: Result<Vec<JsonValue>, String>)
    requires
        exec_ready(*exec),
    ensures
        exists|out: Result<String, String>|
            #![trigger ssh_ran(*exec, remote_hermes_cmd(session_search_args(query@, limit)), None, 15000, out)]
            ssh_ran(*exec, remote_hermes_cmd(session_search_args(query@, limit)), None, 15000, out)
                && list_view(r) == list_result(out),
{
    let mut args: Vec<String> = Vec::new();
    args.push(text::owned("sessions"));
    args.push(text::owned("search"));
    args.push(text::owned(query));
    args.push(text::owned("--json"));
    assert(strings_view(args@) =~= seq!["sessions"@, "search"@, query@, "--json"@]);
    push_num_flag(&mut args, "--limit", limit);
    assert(strings_view(args@) =~= session_search_args(query@, limit));
    run_list_owned(&args, 15000, exec)
}

/// A command's output read as JSON, or the given default when it is not JSON.
pub open spec fn json_or(out: Result<String, String>, d: Json) -> Result<Json, Seq<char>> {
    match out {
        Ok(o) => Ok(match json_parse(o@) {
            Some(v) => v,
            None => d,
        }),
        Err(e) => Err(e@),
    }
}

pub open spec fn value_view(r: Result<JsonValue, String>) -> Result<Json, Seq<char>> {
    match r {
        Ok(v) => Ok(v@),
        Err(e) => Err(e@),
    }
}

fn parse_or(out: Result<String, String>, d: JsonValue) -> (r: Result<JsonValue, String>)
    ensures
        value_view(r) == json_or(out, d@),
{
    match out {
        Ok(o) => match parse_json(o.as_str()) {
            Some(v) => Ok(v),
            None => Ok(d),
        },
        Err(e) => Err(e),
    }
}

fn obj(members: Vec<(String, JsonValue)>) -> (r: JsonValue)
    ensures
        r@ == Json::Object(entries_view(members@)),
{
    JsonValue::Object(members)
}

/// The model configuration the remote CLI reports when it prints none.
pub open spec fn default_model_config() -> Json {
    Json::Object(seq![("provider"@, Json::Str("auto"@)), ("model"@, Json::Str(seq![])), ("baseUrl"@, Json::Str(seq![]))])
}

/// Remote: model configuration (`config model --json`).
pub fn ssh_get_model_config<F: Fn(SshCommand) -> Result<String, String>>(exec: &F) -> (r: Result<JsonValue, String>)
    requires
        exec_ready(*exec),
    ensures
        exists|out: Result<String, String>|
            #![trigger ssh_ran(*exec, remote_hermes_cmd(args3("config"@, "model"@, "--json"@)), None, 10000, out)]
            ssh_ran(*exec, remote_hermes_cmd(args3("config"@, "model"@, "--json"@)), None, 10000, out)
                && value_view(r) == json_or(out, default_model_config()),
{
    let args = ["config", "model", "--json"];
    assert(strs_view(args@) =~= args3("config"@, "model"@, "--json"@));
    let out = run_hermes(&args, 10000, exec);
    let m: Vec<(String, JsonValue)> = vec![
        (text::owned("provider"), JsonValue::Str(text::owned("auto"))),
        (text::owned("model"), JsonValue::Str(String::new())),
        (text::owned("baseUrl"), JsonValue::Str(String::new())),
    ];
    assert(entries_view(m@) =~= seq![("provider"@, Json::Str("auto"@)), ("model"@, Json::Str(seq![])), ("baseUrl"@, Json::Str(seq![]))]);
    parse_or(out, obj(m))
}

/// Remote: create a profile (`profile create <name> --json [--clone]`).
pub fn ssh_create_profile<F: Fn(SshCommand) -> Result<String, String>>(name: &str, clone: bool, exec: &F) -> (r: Result<JsonValue, String>)
    requires
        exec_ready(*exec),
    ensures
        exists|out: Result<String, String>|
            #![trigger ssh_ran(*exec, remote_hermes_cmd(profile_create_args(name@, clone)), None, 10000, out)]
            ssh_ran(*exec, remote_hermes_cmd(profile_create_args(name@, clone)), None, 10000, out)
                && value_view(r) == json_or(out, Json::Object(seq![("success"@, Json::Bool(true))])),
{
    let mut args: Vec<String> = Vec::new();
    args.push(text::owned("profile"));
    args.push(text::owned("create"));
    args.push(text::owned(name));
    args.push(text::owned("--json"));
    if clone {
        args.push(text::owned("--clone"));
    }
    assert(strings_view(args@) =~= profile_create_args(name@, clone));
    let refs = refs_of(&args);
    let out = run_hermes(refs.as_slice(), 10000, exec);
    let m: Vec<(String, JsonValue)> = vec![(text::owned("success"), JsonValue::Bool(true))];
    assert(entries_view(m@) =~= seq![("success"@, Json::Bool(true))]);
    parse_or(out, obj(m))
}

/// Remote: read a log (`logs [file] [--lines n]`): `{"content": <output>, "path": ""}`.
pub fn ssh_read_logs<F: Fn(SshCommand) -> Result<String, String>>(log_file: Option<&str>, lines_wanted: Option<u32>, exec: &F) -> (r: Result<JsonValue, String>)
    requires
        exec_ready(*exec),
    ensures
        exists|out: Result<String, String>|
            #![trigger ssh_ran(*exec, remote_hermes_cmd(logs_args(crate::paths::opt_view(log_file), lines_wanted)), None, 15000, out)]
            ssh_ran(*exec, remote_hermes_cmd(logs_args(crate::paths::opt_view(log_file), lines_wanted)), None, 15000, out)
                && value_view(r) == match out {
                    Ok(o) => Ok(Json::Object(seq![("content"@, Json::Str(o@)), ("path"@, Json::Str(seq![]))])),
                    Err(e) => Err(e@),
                },
{
    let mut args: Vec<String> = Vec::new();
    args.push(text::owned("logs"));
    match log_file {
        Some(f) => args.push(text::owned(f)),
        None => {},
    }
    assert(strings_view(args@) =~= seq!["logs"@] + (match log_file { Some(f) => seq![f@], None => seq![] }));
    push_num_flag(&mut args, "--lines", lines_wanted);
    assert(strings_view(args@) =~= logs_args(crate::paths::opt_view(log_file), lines_wanted));
    let refs = refs_of(&args);
    match run_hermes(refs.as_slice(), 15000, exec) {
        Ok(o) => {
            let ghost ov = o@;
            let m: Vec<(String, JsonValue)> = vec![(text::owned("content"), JsonValue::Str(o)), (text::owned("path"), JsonValue::Str(String::new()))];
            assert(entries_view(m@) =~= seq![("content"@, Json::Str(ov)), ("path"@, Json::Str(seq![]))]);
            Ok(obj(m))
        },
        Err(e) => Err(e),
    }
}


/// Arguments of `models add`.
pub open spec fn model_add_args(name: Seq<char>, provider: Seq<char>, model: Seq<char>, base_url: Seq<char>) -> Seq<Seq<char>> {
    seq!["models"@, "add"@, name, "--provider"@, provider, "--model"@, model, "--base-url"@, base_url, "--json"@]
}

/// The record `models add` stands for when it prints no JSON.
pub open spec fn empty_model_record() -> Json {
    Json::Object(seq![
        ("id"@, Json::Str(seq![])),
        ("name"@, Json::Str(seq![])),
        ("provider"@, Json::Str(seq![])),
        ("model"@, Json::Str(seq![])),
        ("baseUrl"@, Json::Str(seq![])),
    ])
}

fn empty_str_member(k: &str) -> (r: (String, JsonValue))
    ensures
        r.0@ == k@,
        r.1@ == Json::Str(seq![]),
{
    (text::owned(k), JsonValue::Str(String::new()))
}

/// Remote: add a model (`models add <name> --provider .. --model .. --base-url .. --json`).
pub fn ssh_add_model<F: Fn(SshCommand) -> Result<String, String>>(
    name: &str,
    provider: &str,
    model: &str,
    base_url: &str,
    exec: &F,
) -> (r: Result<JsonValue, String>)
    requires
        exec_ready(*exec),
    ensures
        exists|out: Result<String, String>|
            #![trigger ssh_ran(*exec, remote_hermes_cmd(model_add_args(name@, provider@, model@, base_url@)), None, 10000, out)]
            ssh_ran(*exec, remote_hermes_cmd(model_add_args(name@, provider@, model@, base_url@)), None, 10000, out)
                && value_view(r) == json_or(out, empty_model_record()),
{
    let args = ["models", "add", name, "--provider", provider, "--model", model, "--base-url", base_url, "--json"];
    assert(strs_view(args@) =~= model_add_args(name@, provider@, model@, base_url@));
    let out = run_hermes(&args, 10000, exec);
    let m: Vec<(String, JsonValue)> = vec![
        empty_str_member("id"),
        empty_str_member("name"),
        empty_str_member("provider"),
        empty_str_member("model"),
        empty_str_member("baseUrl"),
    ];
    assert(entries_view(m@) =~= seq![
        ("id"@, Json::Str(seq![])),
        ("name"@, Json::Str(seq![])),
        ("provider"@, Json::Str(seq![])),
        ("model"@, Json::Str(seq![])),
        ("baseUrl"@, Json::Str(seq![])),
    ]);
    parse_or(out, obj(m))
}

/// Every member of the object is a boolean.
pub open spec fn all_bool(m: Seq<(Seq<char>, Json)>) -> bool {
    forall|i: int| 0 <= i < m.len() ==> (#[trigger] m[i]).1 is Bool
}

/// The `platform -> enabled` flags printed by `platforms list --json`: the
/// members of an object whose values are all booleans, and none otherwise.
pub open spec fn platform_flags(o: Seq<char>) -> Seq<(Seq<char>, bool)> {
    match json_parse(o) {
        Some(Json::Object(m)) => if all_bool(m) {
            m.map_values(|e: (Seq<char>, Json)| (e.0, e.1->Bool_0))
        } else {
            seq![]
        },
        _ => seq![],
    }
}

pub open spec fn flags_view(v: Seq<(String, bool)>) -> Seq<(Seq<char>, bool)> {
    v.map_values(|e: (String, bool)| (e.0@, e.1))
}

fn bool_members(m: &Vec<(String, JsonValue)>) -> (r: Vec<(String, bool)>)
    ensures
        all_bool(entries_view(m@)) ==> flags_view(r@) == entries_view(m@).map_values(
            |e: (Seq<char>, Json)| (e.0, e.1->Bool_0),
        ),
        !all_bool(entries_view(m@)) ==> r@.len() == 0,
{
    let ghost em = entries_view(m@);
    let mut out: Vec<(String, bool)> = Vec::new();
    let mut i: usize = 0;
    while i < m.len()
        invariant
            i <= m@.len(),
            em == entries_view(m@),
            em.len() == m@.len(),
            forall|k: int| 0 <= k < i ==> (#[trigger] em[k]).1 is Bool,
            flags_view(out@) =~= em.take(i as int).map_values(|e: (Seq<char>, Json)| (e.0, e.1->Bool_0)),
        decreases m@.len() - i,
    {
        let ghost e = em[i as int];
        assert(e.0 == m@[i as int].0@ && e.1 == m@[i as int].1@);
        match &m[i].1 {
            JsonValue::Bool(b) => {
                let k = text::owned(m[i].0.as_str());
                let ghost o0 = out@;
                out.push((k, *b));
                proof {
                    assert(em.take(i + 1) =~= em.take(i as int).push(e));
                    assert(out@ == o0.push((k, *b)));
                    assert(flags_view(out@) =~= flags_view(o0).push((k@, *b)));
                    assert(e.1->Bool_0 == *b);
                    assert(em.take(i + 1).map_values(|e: (Seq<char>, Json)| (e.0, e.1->Bool_0))
                        =~= em.take(i as int).map_values(|e: (Seq<char>, Json)| (e.0, e.1->Bool_0)).push((e.0, *b)));
                }
            },
            _ => {
                assert(!(em[i as int].1 is Bool));
                return Vec::new();
            },
        }
        i += 1;
    }
    assert(em.take(m@.len() as int) =~= em);
    out
}

/// The flags read from the listing's output text.
pub fn platform_flags_of(o: &str) -> (r: Vec<(String, bool)>)
    ensures
        flags_view(r@) == platform_flags(o@),
{
    match parse_json(o) {
        Some(JsonValue::Object(m)) => {
            let r = bool_members(&m);
            proof {
                if !all_bool(entries_view(m@)) {
                    assert(flags_view(r@) =~= seq![]);
                }
            }
            r
        },
        _ => {
            let r: Vec<(String, bool)> = Vec::new();
            assert(flags_view(r@) =~= seq![]);
            r
        },
    }
}

/// Remote: which platforms are enabled (`platforms list --json`); output that
/// is not such an object reads as no platforms.
pub fn ssh_get_platform_enabled<F: Fn(SshCommand) -> Result<String, String>>(exec: &F) -> (r: Result<
    Vec<(String, bool)>,
    String,
>)
    requires
        exec_ready(*exec),
    ensures
        exists|out: Result<String, String>|
            #![trigger ssh_ran(*exec, remote_hermes_cmd(args3("platforms"@, "list"@, "--json"@)), None, 10000, out)]
            ssh_ran(*exec, remote_hermes_cmd(args3("platforms"@, "list"@, "--json"@)), None, 10000, out)
                && match (out, r) {
                    (Ok(o), Ok(v)) => flags_view(v@) == platform_flags(o@),
                    (Err(e), Err(f)) => e@ == f@,
                    _ => false,
                },
{
    let args = ["platforms", "list", "--json"];
    assert(strs_view(args@) =~= args3("platforms"@, "list"@, "--json"@));
    let out = run_hermes(&args, 10000, exec);
    match out {
        Ok(o) => Ok(platform_flags_of(o.as_str())),
        Err(e) => Err(e),
    }
}

/// The Python program that counts a profile's sessions and messages.
pub open spec fn session_stats_script(profile: Option<Seq<char>>) -> Seq<char> {
    "import sqlite3,json;c=sqlite3.connect("@ + shell_quoted(remote_profile_dir(profile) + "/state.db"@)
        + ");s=c.execute('SELECT COUNT(*) FROM sessions').fetchone()[0];m=c.execute('SELECT COUNT(*) FROM messages').fetchone()[0];print(json.dumps({'totalSessions':s,'totalMessages':m}))"@
}

/// The counts that stand in when the remote program prints no JSON.
pub open spec fn zero_stats() -> Json {
    Json::Object(seq![("totalSessions"@, zero_json()), ("totalMessages"@, zero_json())])
}

pub open spec fn zero_json() -> Json {
    Json::Number(Some(0), seq!['0'])
}

fn num_json(n: u128) -> (r: JsonValue)
    requires
        n <= 0x7fff_ffff_ffff_ffff_ffff_ffff_ffff_ffff,
    ensures
        r@ == Json::Number(Some(n as int), text::dec_text(n as nat)),
{
    JsonValue::Number(crate::json::JsonNumber { int: Some(n as i128), text: text::dec_string_wide(n) })
}

/// Remote: session and message counts of a profile's state database.
fn ssh_get_session_stats<F: Fn(SshCommand) -> Result<String, String>>(profile: Option<&str>, exec: &F) -> (r: Result<
    JsonValue,
    String,
>)
    requires
        exec_ready(*exec),
    ensures
        exists|out: Result<String, String>|
            #![trigger ssh_ran(*exec, "python3 -c "@ + shell_quoted(session_stats_script(opt_view(profile))), None, 10000, out)]
            ssh_ran(*exec, "python3 -c "@ + shell_quoted(session_stats_script(opt_view(profile))), None, 10000, out)
                && value_view(r) == json_or(out, zero_stats()),
{
    let base = remote_profile_path(profile);
    let db = text::concat2(base.as_str(), "/state.db");
    let q = shell_quote(db.as_str());
    let script = text::concat3(
        "import sqlite3,json;c=sqlite3.connect(",
        q.as_str(),
        ");s=c.execute('SELECT COUNT(*) FROM sessions').fetchone()[0];m=c.execute('SELECT COUNT(*) FROM messages').fetchone()[0];print(json.dumps({'totalSessions':s,'totalMessages':m}))",
    );
    assert(script@ =~= session_stats_script(opt_view(profile)));
    let out = ssh_python(script.as_str(), None, 10000, exec);
    let m: Vec<(String, JsonValue)> = vec![
        (text::owned("totalSessions"), num_json(0)),
        (text::owned("totalMessages"), num_json(0)),
    ];
    assert(text::dec_text(0) =~= seq!['0']);
    assert(entries_view(m@) =~= seq![("totalSessions"@, zero_json()), ("totalMessages"@, zero_json())]);
    parse_or(out, obj(m))
}

/// The JSON record of one memory file as the remote read reports it.
pub open spec fn memory_file_json(content: Seq<char>, limit: nat) -> Json {
    Json::Object(seq![
        ("content"@, Json::Str(content)),
        ("exists"@, Json::Bool(content.len() > 0)),
        ("lastModified"@, Json::Null),
        ("charCount"@, Json::Number(Some(utf8_len(content) as int), text::dec_text(utf8_len(content)))),
        ("charLimit"@, Json::Number(Some(limit as int), text::dec_text(limit))),
    ])
}

fn memory_file_exec(content: String, limit: u128) -> (r: JsonValue)
    requires
        limit <= 0xffff_ffff,
    ensures
        r@ == memory_file_json(content@, limit as nat),
{
    let c = chars_of(content.as_str());
    let n = crate::memory::utf8_len_exec(&c);
    let exists = c.len() > 0;
    let ghost cv = content@;
    let m: Vec<(String, JsonValue)> = vec![
        (text::owned("content"), JsonValue::Str(content)),
        (text::owned("exists"), JsonValue::Bool(exists)),
        (text::owned("lastModified"), JsonValue::Null),
        (text::owned("charCount"), num_json(n)),
        (text::owned("charLimit"), num_json(limit)),
    ];
    assert(entries_view(m@) =~= seq![
        ("content"@, Json::Str(cv)),
        ("exists"@, Json::Bool(cv.len() > 0)),
        ("lastModified"@, Json::Null),
        ("charCount"@, Json::Number(Some(utf8_len(cv) as int), text::dec_text(utf8_len(cv)))),
        ("charLimit"@, Json::Number(Some(limit as int), text::dec_text(limit as nat))),
    ]);
    obj(m)
}

/// Remote: the memory of a profile: `MEMORY.md`, `USER.md` and the session
/// counts, as one JSON record.
pub fn ssh_read_memory<F: Fn(SshCommand) -> Result<String, String>>(profile: Option<&str>, exec: &F) -> (r: Result<
    JsonValue,
    String,
>)
    requires
        exec_ready(*exec),
    ensures
        exists|mem: Result<String, String>, user: Result<String, String>, stats: Result<String, String>|
            #![trigger ssh_ran(*exec, read_file_cmd(remote_profile_dir(opt_view(profile)) + "/memories/MEMORY.md"@), None, 10000, mem),
                ssh_ran(*exec, read_file_cmd(remote_profile_dir(opt_view(profile)) + "/memories/USER.md"@), None, 10000, user),
                ssh_ran(*exec, "python3 -c "@ + shell_quoted(session_stats_script(opt_view(profile))), None, 10000, stats)]
            {
                &&& ssh_ran(*exec, read_file_cmd(remote_profile_dir(opt_view(profile)) + "/memories/MEMORY.md"@), None, 10000, mem)
                &&& ssh_ran(*exec, read_file_cmd(remote_profile_dir(opt_view(profile)) + "/memories/USER.md"@), None, 10000, user)
                &&& ssh_ran(*exec, "python3 -c "@ + shell_quoted(session_stats_script(opt_view(profile))), None, 10000, stats)
                &&& value_view(r) == match json_or(stats, zero_stats()) {
                    Ok(s) => Ok(Json::Object(seq![
                        ("memory"@, memory_file_json(out_or_empty(mem), 2200)),
                        ("user"@, memory_file_json(out_or_empty(user), 1375)),
                        ("stats"@, s),
                    ])),
                    Err(e) => Err(e),
                }
            },
{
    let base = remote_profile_path(profile);
    let mem_path = text::concat2(base.as_str(), "/memories/MEMORY.md");
    let user_path = text::concat2(base.as_str(), "/memories/USER.md");
    let mem = ssh_read_file(mem_path.as_str(), exec);
    let user = ssh_read_file(user_path.as_str(), exec);
    let stats = ssh_get_session_stats(profile, exec);
    let mem_text = match mem {
        Ok(s) => s,
        Err(_) => String::new(),
    };
    let user_text = match user {
        Ok(s) => s,
        Err(_) => String::new(),
    };
    match stats {
        Ok(s) => {
            let ghost sv = s@;
            let ghost mv = mem_text@;
            let ghost uv = user_text@;
            let m: Vec<(String, JsonValue)> = vec![
                (text::owned("memory"), memory_file_exec(mem_text, 2200)),
                (text::owned("user"), memory_file_exec(user_text, 1375)),
                (text::owned("stats"), s),
            ];
            assert(entries_view(m@) =~= seq![
                ("memory"@, memory_file_json(mv, 2200)),
                ("user"@, memory_file_json(uv, 1375)),
                ("stats"@, sv),
            ]);
            Ok(obj(m))
        },
        Err(e) => Err(e),
    }
}

} // verus!
