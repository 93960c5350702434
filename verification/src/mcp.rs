//! MCP servers: the list kept in `mcp.json`, and adding, removing and
//! changing its entries by name.
use vstd::prelude::*;
use crate::json::{items_view, Json, JsonValue};
use crate::sessions::{or_empty, str_of, str_or_empty, as_str_opt};
use crate::text;
use crate::cli::strings_view;

verus! {

/// An MCP server: the command that starts it and its arguments.
pub struct McpServer {
    pub name: String,
    pub command: String,
    pub args: Vec<String>,
    pub enabled: bool,
}

pub type ServerView = (Seq<char>, Seq<char>, Seq<Seq<char>>, bool);

pub open spec fn server_view(s: McpServer) -> ServerView {
    (s.name@, s.command@, strings_view(s.args@), s.enabled)
}

pub open spec fn servers_view(s: Seq<McpServer>) -> Seq<ServerView> {
    s.map_values(|x: McpServer| server_view(x))
}

pub open spec fn names(s: Seq<ServerView>) -> Seq<Seq<char>> {
    s.map_values(|x: ServerView| x.0)
}

fn copy_strings(v: &Vec<String>) -> (r: Vec<String>)
    ensures
        strings_view(r@) == strings_view(v@),
{
    let mut out: Vec<String> = Vec::new();
    let mut i: usize = 0;
    while i < v.len()
        invariant
            i <= v.len(),
            strings_view(out@) =~= strings_view(v@).take(i as int),
        decreases v.len() - i,
    {
        let ghost before = out@;
        let c = text::owned(v[i].as_str());
        out.push(c);
        assert(strings_view(out@) =~= strings_view(before).push(c@));
        assert(strings_view(v@).take(i + 1) =~= strings_view(v@).take(i as int).push(v@[i as int]@));
        i += 1;
    }
    assert(strings_view(v@).take(v.len() as int) =~= strings_view(v@));
    out
}

fn copy_server(s: &McpServer) -> (r: McpServer)
    ensures
        server_view(r) == server_view(*s),
{
    McpServer { name: text::owned(s.name.as_str()), command: text::owned(s.command.as_str()), args: copy_strings(&s.args), enabled: s.enabled }
}

/// The strings of a member that is an array, others skipped.
pub open spec fn arg_strings(o: Option<Json>) -> Seq<Seq<char>> {
    match o {
        Some(Json::Array(a)) => crate::cron::string_items(a),
        _ => seq![],
    }
}

/// A server as the remote host reports it: missing text is empty, missing
/// arguments none, and a server is enabled unless it says otherwise.
pub fn mcp_server_from_json(v: &JsonValue) -> (r: McpServer)
    ensures
        r.name@ == str_or_empty(as_str_opt(v@.get("name"@))),
        r.command@ == str_or_empty(as_str_opt(v@.get("command"@))),
        strings_view(r.args@) == arg_strings(v@.get("args"@)),
        r.enabled == match v@.get("enabled"@) {
            Some(Json::Bool(b)) => b,
            _ => true,
        },
{
    let enabled = match v.get("enabled") {
        Some(JsonValue::Bool(b)) => *b,
        _ => true,
    };
    let mut args: Vec<String> = Vec::new();
    match v.get("args") {
        Some(JsonValue::Array(a)) => {
            let ghost iv = items_view(a@);
            let mut i: usize = 0;
            assert(iv.take(0) =~= seq![]);
            assert(strings_view(args@) =~= seq![]);
            while i < a.len()
                invariant
                    i <= a.len(),
                    iv == items_view(a@),
                    strings_view(args@) == crate::cron::string_items(iv.take(i as int)),
                decreases a.len() - i,
            {
                assert(iv.take(i + 1).drop_last() =~= iv.take(i as int));
                assert(iv.take(i + 1).last() == a@[i as int]@);
                match &a[i] {
                    JsonValue::Str(s) => {
                        let ghost before = args@;
                        let c = text::owned(s.as_str());
                        args.push(c);
                        assert(strings_view(args@) =~= strings_view(before).push(c@));
                    },
                    _ => {},
                }
                i += 1;
            }
            assert(iv.take(a.len() as int) =~= iv);
        },
        _ => {
            assert(strings_view(args@) =~= seq![]);
        },
    }
    McpServer { name: or_empty(str_of(v.get("name"))), command: or_empty(str_of(v.get("command"))), args, enabled }
}

fn position(servers: &Vec<McpServer>, name: &str) -> (r: Option<usize>)
    ensures
        match r {
            Some(i) => i < servers@.len() && servers@[i as int].name@ == name@
                && names(servers_view(servers@)).contains(name@)
                && forall|k: int| 0 <= k < i ==> servers@[k].name@ != name@,
            None => !names(servers_view(servers@)).contains(name@),
        },
{
    let mut i: usize = 0;
    while i < servers.len()
        invariant
            i <= servers.len(),
            forall|k: int| 0 <= k < i ==> servers@[k].name@ != name@,
        decreases servers.len() - i,
    {
        if text::str_eq(servers[i].name.as_str(), name) {
            assert(names(servers_view(servers@))[i as int] == name@);
            return Some(i);
        }
        i += 1;
    }
    proof {
        if names(servers_view(servers@)).contains(name@) {
            let k = choose|k: int| 0 <= k < names(servers_view(servers@)).len() && names(servers_view(servers@))[k] == name@;
            assert(servers@[k].name@ == name@);
        }
    }
    None
}

/// Adds a server, enabled. A name that is taken is refused.
pub fn add_mcp_server(servers: &mut Vec<McpServer>, name: &str, command: &str, args: Vec<String>) -> (r: Result<McpServer, String>)
    ensures
        names(servers_view(old(servers)@)).contains(name@) ==> (r matches Err(e) && e@ == "mcp.serverExists"@)
            && final(servers)@ == old(servers)@,
        !names(servers_view(old(servers)@)).contains(name@) ==> (r matches Ok(s)
            && server_view(s) == (name@, command@, strings_view(args@), true))
            && servers_view(final(servers)@) == servers_view(old(servers)@).push((name@, command@, strings_view(args@), true)),
{
    match position(servers, name) {
        Some(_) => Err(text::owned("mcp.serverExists")),
        None => {
            let s = McpServer { name: text::owned(name), command: text::owned(command), args, enabled: true };
            let c = copy_server(&s);
            let ghost before = servers@;
            servers.push(s);
            assert(servers_view(servers@) =~= servers_view(before).push(server_view(c)));
            Ok(c)
        },
    }
}

/// The servers with another name, in order.
pub open spec fn without_name(s: Seq<ServerView>, name: Seq<char>) -> Seq<ServerView>
    decreases s.len(),
{
    if s.len() == 0 {
        seq![]
    } else if s.last().0 == name {
        without_name(s.drop_last(), name)
    } else {
        without_name(s.drop_last(), name).push(s.last())
    }
}

/// Removes every server with this name.
pub fn remove_mcp_server(servers: &mut Vec<McpServer>, name: &str)
    ensures
        servers_view(final(servers)@) == without_name(servers_view(old(servers)@), name@),
{
    let ghost sv = servers_view(servers@);
    let mut kept: Vec<McpServer> = Vec::new();
    let mut rest: Vec<McpServer> = Vec::new();
    std::mem::swap(&mut rest, servers);
    let ghost mut i: int = 0;
    assert(rest@.skip(0) =~= rest@);
    let ghost r0 = rest@;
    assert(servers_view(kept@) =~= without_name(sv.take(0), name@));
    while rest.len() > 0
        invariant
            0 <= i <= sv.len(),
            sv == servers_view(r0),
            rest@ == r0.skip(i),
            servers_view(kept@) == without_name(sv.take(i), name@),
        decreases rest.len(),
    {
        let x = rest.remove(0);
        proof {
            assert(r0.skip(i)[0] == x);
            assert(sv.take(i + 1).drop_last() =~= sv.take(i));
            assert(sv.take(i + 1).last() == server_view(x));
        }
        if !text::str_eq(x.name.as_str(), name) {
            let ghost before = kept@;
            kept.push(x);
            assert(servers_view(kept@) =~= servers_view(before).push(server_view(x)));
        }
        proof {
            i = i + 1;
            assert(rest@ =~= r0.skip(i));
        }
    }
    assert(sv.take(i) =~= sv);
    *servers = kept;
}

/// Changes the first server with this name: its command, arguments and
/// state where given. An unknown name is an error.
pub fn update_mcp_server(
    servers: &mut Vec<McpServer>,
    name: &str,
    command: Option<String>,
    args: Option<Vec<String>>,
    enabled: Option<bool>,
) -> (r: Result<McpServer, String>)
    ensures
        !names(servers_view(old(servers)@)).contains(name@) ==> (r matches Err(e)
            && e@ == "Server '"@ + name@ + "' not found"@) && final(servers)@ == old(servers)@,
        names(servers_view(old(servers)@)).contains(name@) ==> exists|i: int| #![trigger final(servers)@[i]]
            0 <= i < old(servers)@.len() && old(servers)@[i].name@ == name@
            && (forall|k: int| 0 <= k < i ==> old(servers)@[k].name@ != name@)
            && servers_view(final(servers)@) == servers_view(old(servers)@).update(i, {
                let o = server_view(old(servers)@[i]);
                (
                    o.0,
                    match command { Some(c) => c@, None => o.1 },
                    match args { Some(a) => strings_view(a@), None => o.2 },
                    match enabled { Some(e) => e, None => o.3 },
                )
            })
            && (r matches Ok(s) && server_view(s) == server_view(final(servers)@[i])),
{
    match position(servers, name) {
        None => Err(text::concat3("Server '", name, "' not found")),
        Some(i) => {
            let ghost before = servers@;
            let ghost cmd0 = command;
            let ghost args0 = args;
            let mut s = copy_server(&servers[i]);
            match command { Some(x) => s.command = x, None => {} }
            match args { Some(a) => s.args = a, None => {} }
            match enabled { Some(e) => s.enabled = e, None => {} }
            let c = copy_server(&s);
            let ghost o = server_view(before[i as int]);
            assert(server_view(c) == (
                o.0,
                match cmd0 { Some(x) => x@, None => o.1 },
                match args0 { Some(a) => strings_view(a@), None => o.2 },
                match enabled { Some(e) => e, None => o.3 },
            ));
            servers.set(i, s);
            assert(servers_view(servers@) =~= servers_view(before).update(i as int, server_view(c)));
            assert(server_view(servers@[i as int]) == server_view(c));
            Ok(c)
        },
    }
}

/// The server to try: the first with this name.
pub fn find_mcp_server(servers: &Vec<McpServer>, name: &str) -> (r: Result<McpServer, String>)
    ensures
        match r {
            Ok(s) => exists|i: int| 0 <= i < servers@.len() && server_view(s) == server_view(#[trigger] servers@[i])
                && s.name@ == name@ && forall|k: int| 0 <= k < i ==> servers@[k].name@ != name@,
            Err(e) => !names(servers_view(servers@)).contains(name@) && e@ == "Server not found"@,
        },
{
    match position(servers, name) {
        Some(i) => Ok(copy_server(&servers[i])),
        None => Err(text::owned("Server not found")),
    }
}

/// The computer-use server: `python -m computer_use`.
pub open spec fn computer_use() -> ServerView {
    ("computer-use"@, "python"@, seq!["-m"@, "computer_use"@], true)
}

/// Adds the computer-use server unless one by that name is listed; whether
/// the list changed.
pub fn add_computer_use(servers: &mut Vec<McpServer>) -> (changed: bool)
    ensures
        changed == !names(servers_view(old(servers)@)).contains("computer-use"@),
        changed ==> servers_view(final(servers)@) == servers_view(old(servers)@).push(computer_use()),
        !changed ==> final(servers)@ == old(servers)@,
{
    match position(servers, "computer-use") {
        Some(_) => false,
        None => {
            let mut args: Vec<String> = Vec::new();
            args.push(text::owned("-m"));
            args.push(text::owned("computer_use"));
            assert(strings_view(args@) =~= seq!["-m"@, "computer_use"@]);
            let s = McpServer { name: text::owned("computer-use"), command: text::owned("python"), args, enabled: true };
            let ghost before = servers@;
            servers.push(s);
            assert(servers_view(servers@) =~= servers_view(before).push(computer_use()));
            true
        },
    }
}

/// A server just added is listed under its name.
pub proof fn law_added_server_listed(s: Seq<ServerView>, name: Seq<char>, command: Seq<char>, args: Seq<Seq<char>>)
    ensures
        names(s.push((name, command, args, true))).contains(name),
{
    assert(names(s.push((name, command, args, true)))[s.len() as int] == name);
}

/// After a removal no server of that name is left, and the others keep
/// their order.
pub proof fn law_removed_server_gone(s: Seq<ServerView>, name: Seq<char>)
    ensures
        !names(without_name(s, name)).contains(name),
        without_name(s, name).len() <= s.len(),
    decreases s.len(),
{
    if s.len() > 0 {
        law_removed_server_gone(s.drop_last(), name);
        let w = without_name(s.drop_last(), name);
        if s.last().0 != name {
            assert forall|k: int| 0 <= k < w.push(s.last()).len() implies names(w.push(s.last()))[k] != name by {
                if k < w.len() {
                    assert(names(w.push(s.last()))[k] == names(w)[k]);
                }
            }
        }
    }
}

/// Removal keeps every server whose name differs from the given one, in
/// order, and only those: the result is the list filtered by `name != given`.
pub proof fn law_removal_keeps_other_servers(s: Seq<ServerView>, name: Seq<char>)
    ensures
        without_name(s, name) == s.filter(|x: ServerView| x.0 != name),
    decreases s.len(),
{
    reveal(Seq::filter);
    if s.len() > 0 {
        law_removal_keeps_other_servers(s.drop_last(), name);
    }
}

} // verus!
