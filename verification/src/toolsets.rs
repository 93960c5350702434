//! Toolsets: which of the agent's toolsets the command line uses, as its
//! `platform_toolsets.cli` list in `config.yaml` names them, and the edit
//! that turns one on or off.
use vstd::prelude::*;
use crate::sse::{is_re_space, run_len, run_len_exec};
use crate::text::{chars_of, contains_sub, join, lines, lines_exec, starts_with, string_of, text_order, text_order_exec, trim, trim_end, trim_start};
use crate::text;
use crate::cli::strings_view;
use crate::platforms::{is_word, is_word_exec};

verus! {

/// A toolset and whether it is on.
pub struct ToolsetInfo {
    pub key: String,
    pub label: String,
    pub description: String,
    pub enabled: bool,
}

/// `\w`: an ASCII letter, digit or underscore.
pub open spec fn word_len(s: Seq<char>) -> nat
    decreases s.len(),
{
    if s.len() > 0 && is_word(s[0]) { 1 + word_len(s.drop_first()) } else { 0 }
}

/// The toolset a list line names: `^\s+-\s+["']?(\w+)["']?`.
pub open spec fn list_item(t: Seq<char>) -> Option<Seq<char>> {
    let a = run_len(t, true);
    if a == 0 || a >= t.len() || t[a as int] != '-' {
        None
    } else {
        let r = t.skip(a as int + 1);
        let b = run_len(r, true);
        if b == 0 {
            None
        } else {
            let u = r.skip(b as int);
            let q: int = if u.len() > 0 && (u[0] == '"' || u[0] == '\'') { 1 } else { 0 };
            let w = word_len(u.skip(q));
            if w == 0 { None } else { Some(u.skip(q).take(w as int)) }
        }
    }
}

/// Where the scan of `config.yaml` is: inside `platform_toolsets`, inside
/// its `cli` list, and the toolsets found so far.
pub type ScanState = (bool, bool, Seq<Seq<char>>);

pub open spec fn opens_toolsets(t: Seq<char>) -> bool {
    starts_with(trim_start(t), "platform_toolsets"@) && contains_sub(t, ":"@)
}

pub open spec fn scan_step(st: ScanState, line: Seq<char>) -> ScanState {
    let t = trim_end(line);
    let (in_pts, in_cli, acc) = st;
    if opens_toolsets(t) {
        (true, false, acc)
    } else if in_pts && starts_with(trim_start(t), "cli:"@) {
        (true, true, acc)
    } else if in_pts && !starts_with(t, " "@) && t.len() > 0 {
        (false, false, acc)
    } else if in_cli && starts_with(t, "    "@) && !starts_with(trim_start(t), "-"@) && trim(t).len() > 0 {
        (in_pts, false, acc)
    } else if in_cli {
        match list_item(t) {
            Some(w) => (in_pts, in_cli, acc.push(w)),
            None => (in_pts, in_cli, acc),
        }
    } else {
        st
    }
}

pub open spec fn scan(ls: Seq<Seq<char>>) -> ScanState
    decreases ls.len(),
{
    if ls.len() == 0 {
        (false, false, seq![])
    } else {
        scan_step(scan(ls.drop_last()), ls.last())
    }
}

/// The toolsets the `cli` list names, in order.
pub open spec fn enabled_toolsets(content: Seq<char>) -> Seq<Seq<char>> {
    scan(lines(content)).2
}

proof fn lemma_word_len(s: Seq<char>, k: int)
    requires
        0 <= k <= s.len(),
        forall|j: int| 0 <= j < k ==> is_word(#[trigger] s[j]),
        k == s.len() || !is_word(s[k]),
    ensures
        word_len(s) == k,
    decreases k,
{
    if k > 0 {
        let t = s.drop_first();
        assert forall|j: int| 0 <= j < k - 1 implies is_word(#[trigger] t[j]) by {
            assert(t[j] == s[j + 1]);
        }
        lemma_word_len(t, k - 1);
    }
}

fn list_item_exec(t: &Vec<char>) -> (r: Option<Vec<char>>)
    ensures
        match r {
            Some(w) => list_item(t@) == Some(w@),
            None => list_item(t@) is None,
        },
{
    let n = t.len();
    assert(t@.subrange(0, n as int) =~= t@);
    let a = run_len_exec(t, 0, n, true);
    if a == 0 || a >= n || t[a] != '-' {
        return None;
    }
    let b = run_len_exec(t, a + 1, n, true);
    assert(t@.subrange(a + 1, n as int) =~= t@.skip(a + 1));
    if b == 0 {
        return None;
    }
    let us = a + 1 + b;
    let ghost u = t@.skip(a + 1).skip(b as int);
    assert(u =~= t@.skip(us as int));
    let q: usize = if us < n && (t[us] == '"' || t[us] == '\'') { 1 } else { 0 };
    proof {
        if us < n {
            assert(u[0] == t@[us as int]);
        }
    }
    let ws = us + q;
    let mut w: usize = 0;
    while ws + w < n && is_word_exec(t[ws + w])
        invariant
            ws <= n,
            ws + w <= n,
            n == t.len(),
            forall|j: int| 0 <= j < w ==> is_word(#[trigger] t@[ws + j]),
        decreases n - ws - w,
    {
        w += 1;
    }
    proof {
        let v = u.skip(q as int);
        assert(v =~= t@.skip(ws as int));
        assert forall|j: int| 0 <= j < w implies is_word(#[trigger] v[j]) by {
            assert(v[j] == t@[ws + j]);
        }
        if ws + w < n {
            assert(v[w as int] == t@[ws + w]);
        }
        lemma_word_len(v, w as int);
    }
    if w == 0 {
        return None;
    }
    let r = text::slice(t, ws, ws + w);
    assert(r@ =~= u.skip(q as int).take(w as int));
    Some(r)
}

/// The toolsets the `cli` list of `platform_toolsets` names.
pub fn parse_enabled_toolsets(content: &str) -> (r: Vec<String>)
    ensures
        strings_view(r@) == enabled_toolsets(content@),
{
    let c = chars_of(content);
    let ls = lines_exec(&c);
    let ghost lv = lines(c@);
    let p_t: Vec<char> = chars_of("platform_toolsets");
    let colon: Vec<char> = chars_of(":");
    let cli: Vec<char> = chars_of("cli:");
    let sp: Vec<char> = chars_of(" ");
    let sp4: Vec<char> = chars_of("    ");
    let dash: Vec<char> = chars_of("-");
    let mut in_pts = false;
    let mut in_cli = false;
    let mut out: Vec<String> = Vec::new();
    let mut i: usize = 0;
    assert(lv.take(0) =~= seq![]);
    assert(strings_view(out@) =~= seq![]);
    while i < ls.len()
        invariant
            i <= ls.len(),
            ls@.len() == lv.len(),
            lv == lines(c@),
            c@ == content@,
            forall|k: int| 0 <= k < ls@.len() ==> #[trigger] ls@[k]@ == lv[k],
            p_t@ == "platform_toolsets"@,
            colon@ == ":"@,
            cli@ == "cli:"@,
            sp@ == " "@,
            sp4@ == "    "@,
            dash@ == "-"@,
            scan(lv.take(i as int)) == (in_pts, in_cli, strings_view(out@)),
        decreases ls.len() - i,
    {
        assert(lv.take(i + 1).drop_last() =~= lv.take(i as int));
        assert(lv.take(i + 1).last() == ls@[i as int]@);
        let t = trim_end_vec(&ls[i]);
        let ts = trim_start_vec(&t);
        let tt = text::trim_vec(&t);
        if text::starts_with_exec(&ts, &p_t) && text::contains_exec(&t, &colon) {
            in_pts = true;
            in_cli = false;
        } else if in_pts && text::starts_with_exec(&ts, &cli) {
            in_cli = true;
        } else if in_pts && !text::starts_with_exec(&t, &sp) && t.len() > 0 {
            in_pts = false;
            in_cli = false;
        } else if in_cli && text::starts_with_exec(&t, &sp4) && !text::starts_with_exec(&ts, &dash) && tt.len() > 0 {
            in_cli = false;
        } else if in_cli {
            match list_item_exec(&t) {
                Some(w) => {
                    let ghost before = out@;
                    let s = string_of(w.as_slice());
                    out.push(s);
                    assert(strings_view(out@) =~= strings_view(before).push(s@));
                },
                None => {},
            }
        }
        i += 1;
    }
    assert(lv.take(ls.len() as int) =~= lv);
    out
}

fn trim_end_vec(s: &Vec<char>) -> (r: Vec<char>)
    ensures
        r@ == trim_end(s@),
{
    let mut n = s.len();
    while n > 0 && text::is_ws_char(s[n - 1])
        invariant
            n <= s.len(),
            forall|j: int| n <= j < s.len() ==> crate::text::is_ws(#[trigger] s@[j]),
        decreases n,
    {
        n -= 1;
    }
    proof {
        text::lemma_trim_end_char(s@, n as int);
    }
    text::slice(s, 0, n)
}

fn trim_start_vec(s: &Vec<char>) -> (r: Vec<char>)
    ensures
        r@ == trim_start(s@),
{
    let mut a: usize = 0;
    while a < s.len() && text::is_ws_char(s[a])
        invariant
            a <= s.len(),
            forall|j: int| 0 <= j < a ==> crate::text::is_ws(#[trigger] s@[j]),
        decreases s.len() - a,
    {
        a += 1;
    }
    proof {
        text::lemma_trim_start_char(s@, a as int);
    }
    let r = text::slice(s, a, s.len());
    assert(r@ =~= s@.skip(a as int));
    r
}


// ───────────────────────── the toolsets ─────────────────────────

/// Key, label and description of each toolset, in display order.
pub open spec fn toolset_defs() -> Seq<(Seq<char>, Seq<char>, Seq<char>)> {
    seq![
        ("web"@, "Web Search"@, "Search the web for information"@),
        ("browser"@, "Browser"@, "Browse web pages"@),
        ("terminal"@, "Terminal"@, "Execute terminal commands"@),
        ("file"@, "File Operations"@, "Read and write files"@),
        ("code_execution"@, "Code Execution"@, "Execute code in sandbox"@),
        ("vision"@, "Vision"@, "Analyze images"@),
        ("image_gen"@, "Image Generation"@, "Generate images"@),
        ("tts"@, "Text-to-Speech"@, "Convert text to speech"@),
        ("skills"@, "Skills"@, "Use installed skills"@),
        ("memory"@, "Memory"@, "Read and write memories"@),
        ("session_search"@, "Session Search"@, "Search past conversations"@),
        ("clarify"@, "Clarify"@, "Ask clarifying questions"@),
        ("delegation"@, "Delegation"@, "Delegate tasks to agents"@),
        ("cronjob"@, "Cron Jobs"@, "Schedule recurring tasks"@),
        ("moa"@, "Mixture of Agents"@, "Use multiple agents"@),
        ("todo"@, "Todo"@, "Manage todo lists"@),
    ]
}

pub open spec fn info_view(t: ToolsetInfo) -> (Seq<char>, Seq<char>, Seq<char>, bool) {
    (t.key@, t.label@, t.description@, t.enabled)
}

fn push_def(out: &mut Vec<ToolsetInfo>, enabled: &Vec<String>, all: bool, key: &str, label: &str, description: &str)
    ensures
        final(out)@.len() == old(out)@.len() + 1,
        forall|k: int| 0 <= k < old(out)@.len() ==> #[trigger] final(out)@[k] == old(out)@[k],
        info_view(final(out)@[old(out)@.len() as int]) == (key@, label@, description@, all || strings_view(enabled@).contains(key@)),
{
    let mut on = all;
    let mut i: usize = 0;
    while i < enabled.len() && !on
        invariant
            i <= enabled.len(),
            on ==> (all || strings_view(enabled@).contains(key@)),
            !on ==> !all && forall|j: int| 0 <= j < i ==> strings_view(enabled@)[j] != key@,
        decreases enabled.len() - i,
    {
        if text::str_eq(enabled[i].as_str(), key) {
            assert(strings_view(enabled@)[i as int] == key@);
            on = true;
        }
        i += 1;
    }
    proof {
        if !on && strings_view(enabled@).contains(key@) {
            let j = choose|j: int| 0 <= j < strings_view(enabled@).len() && strings_view(enabled@)[j] == key@;
            assert(false);
        }
    }
    out.push(ToolsetInfo { key: text::owned(key), label: text::owned(label), description: text::owned(description), enabled: on });
}

/// The toolsets and whether each is on: all of them when there is no
/// configuration, else those the `cli` list names.
pub fn get_toolsets(config: Option<&str>) -> (r: Vec<ToolsetInfo>)
    ensures
        r@.len() == toolset_defs().len(),
        forall|k: int| 0 <= k < r@.len() ==> #[trigger] info_view(r@[k]) == {
            let d = toolset_defs()[k];
            let en = match config { Some(c) => enabled_toolsets(c@), None => seq![] };
            (d.0, d.1, d.2, (en.len() == 0 && config is None) || en.contains(d.0))
        },
{
    let enabled: Vec<String> = match config {
        Some(c) => parse_enabled_toolsets(c),
        None => {
            let e: Vec<String> = Vec::new();
            assert(strings_view(e@) =~= seq![]);
            e
        },
    };
    let all = enabled.len() == 0 && config.is_none();
    let mut out: Vec<ToolsetInfo> = Vec::new();
    push_def(&mut out, &enabled, all, "web", "Web Search", "Search the web for information");
    push_def(&mut out, &enabled, all, "browser", "Browser", "Browse web pages");
    push_def(&mut out, &enabled, all, "terminal", "Terminal", "Execute terminal commands");
    push_def(&mut out, &enabled, all, "file", "File Operations", "Read and write files");
    push_def(&mut out, &enabled, all, "code_execution", "Code Execution", "Execute code in sandbox");
    push_def(&mut out, &enabled, all, "vision", "Vision", "Analyze images");
    push_def(&mut out, &enabled, all, "image_gen", "Image Generation", "Generate images");
    push_def(&mut out, &enabled, all, "tts", "Text-to-Speech", "Convert text to speech");
    push_def(&mut out, &enabled, all, "skills", "Skills", "Use installed skills");
    push_def(&mut out, &enabled, all, "memory", "Memory", "Read and write memories");
    push_def(&mut out, &enabled, all, "session_search", "Session Search", "Search past conversations");
    push_def(&mut out, &enabled, all, "clarify", "Clarify", "Ask clarifying questions");
    push_def(&mut out, &enabled, all, "delegation", "Delegation", "Delegate tasks to agents");
    push_def(&mut out, &enabled, all, "cronjob", "Cron Jobs", "Schedule recurring tasks");
    push_def(&mut out, &enabled, all, "moa", "Mixture of Agents", "Use multiple agents");
    push_def(&mut out, &enabled, all, "todo", "Todo", "Manage todo lists");
    out
}


// ───────────────────────── turning one on or off ─────────────────────────

/// The list without `name`.
pub open spec fn without_text(s: Seq<Seq<char>>, name: Seq<char>) -> Seq<Seq<char>>
    decreases s.len(),
{
    if s.len() == 0 {
        seq![]
    } else if s.last() == name {
        without_text(s.drop_last(), name)
    } else {
        without_text(s.drop_last(), name).push(s.last())
    }
}

/// The list after the change: `name` added (once) or removed.
pub open spec fn changed_list(cur: Seq<Seq<char>>, name: Seq<char>, enabled: bool) -> Seq<Seq<char>> {
    if enabled {
        if cur.contains(name) { cur } else { cur.push(name) }
    } else {
        without_text(cur, name)
    }
}

pub open spec fn first_greater(s: Seq<Seq<char>>, x: Seq<char>) -> int
    decreases s.len(),
{
    if s.len() == 0 {
        0
    } else if text_order(x, s[0]) < 0 {
        0
    } else {
        1 + first_greater(s.drop_first(), x)
    }
}

/// A stable sort, ascending.
pub open spec fn ascending(s: Seq<Seq<char>>) -> Seq<Seq<char>>
    decreases s.len(),
{
    if s.len() == 0 {
        seq![]
    } else {
        let sorted = ascending(s.drop_last());
        sorted.insert(first_greater(sorted, s.last()), s.last())
    }
}

pub proof fn lemma_first_greater(s: Seq<Seq<char>>, x: Seq<char>)
    ensures
        0 <= first_greater(s, x) <= s.len(),
    decreases s.len(),
{
    if s.len() > 0 && !(text_order(x, s[0]) < 0) {
        lemma_first_greater(s.drop_first(), x);
    }
}

/// The new `cli` block: `  cli:` and a `      - <name>` line per toolset.
pub open spec fn cli_section(list: Seq<Seq<char>>) -> Seq<char> {
    "  cli:\n"@ + join(list.map_values(|t: Seq<char>| "      - "@ + t), "\n"@)
}

/// The rewrite's state: inside `platform_toolsets`, inside its `cli`
/// block, whether the new block was written, and the text so far.
pub type EditState = (bool, bool, bool, Seq<char>);

pub open spec fn edit_step(st: EditState, line: Seq<char>, section: Seq<char>) -> EditState {
    let t = trim_end(line);
    let (in_pts, in_cli, inserted, res) = st;
    if opens_toolsets(t) {
        (true, in_cli, inserted, res + line + "\n"@)
    } else if in_pts && starts_with(trim_start(t), "cli:"@) {
        (in_pts, true, true, res + section + "\n"@)
    } else if in_cli {
        if starts_with(trim_start(t), "-"@) {
            st
        } else if !starts_with(t, " "@) || trim(t).len() == 0 {
            (in_pts, false, inserted, res + line + "\n"@)
        } else {
            st
        }
    } else if in_pts && !starts_with(t, " "@) && t.len() > 0 {
        if !inserted {
            (false, in_cli, true, res + section + "\n"@ + line + "\n"@)
        } else {
            (false, in_cli, inserted, res + line + "\n"@)
        }
    } else {
        (in_pts, in_cli, inserted, res + line + "\n"@)
    }
}

pub open spec fn edit_scan(ls: Seq<Seq<char>>, section: Seq<char>) -> EditState
    decreases ls.len(),
{
    if ls.len() == 0 {
        (false, false, false, seq![])
    } else {
        edit_step(edit_scan(ls.drop_last(), section), ls.last(), section)
    }
}

/// The configuration with the toolset turned on or off: the `cli` block of
/// `platform_toolsets` replaced by the sorted new list (the block is added
/// at the end of the section, or with the section at the end of the file).
pub open spec fn toolset_edit(content: Seq<char>, name: Seq<char>, enabled: bool) -> Seq<char> {
    let section = cli_section(ascending(changed_list(enabled_toolsets(content), name, enabled)));
    if contains_sub(content, "platform_toolsets"@) {
        trim_end(edit_scan(lines(content), section).3) + "\n"@
    } else {
        trim_end(content) + "\nplatform_toolsets:\n"@ + section + "\n"@
    }
}

fn sort_ascending(names: Vec<String>) -> (r: Vec<String>)
    ensures
        strings_view(r@) == ascending(strings_view(names@)),
{
    let ghost sv = strings_view(names@);
    let mut out: Vec<String> = Vec::new();
    let mut rest = names;
    let ghost mut i: int = 0;
    assert(sv.skip(0) =~= sv);
    assert(strings_view(out@) =~= ascending(sv.take(0)));
    while rest.len() > 0
        invariant
            0 <= i <= sv.len(),
            rest@.len() + i == sv.len(),
            strings_view(rest@) == sv.skip(i),
            strings_view(out@) == ascending(sv.take(i)),
        decreases rest.len(),
    {
        let ghost old_rest = rest@;
        let x = rest.remove(0);
        proof {
            assert(strings_view(old_rest)[0] == x@);
            assert(sv.skip(i)[0] == x@);
            assert(sv.take(i + 1).drop_last() =~= sv.take(i));
            assert(sv.take(i + 1).last() == x@);
            assert forall|j: int| 0 <= j < rest@.len() implies #[trigger] strings_view(rest@)[j] == sv.skip(i + 1)[j] by {
                assert(rest@[j] == old_rest[j + 1]);
                assert(strings_view(old_rest)[j + 1] == sv.skip(i)[j + 1]);
            }
            assert(strings_view(rest@) =~= sv.skip(i + 1));
            lemma_first_greater(strings_view(out@), x@);
        }
        let mut k: usize = 0;
        assert(strings_view(out@).skip(0) =~= strings_view(out@));
        while k < out.len() && !(text_order_exec(x.as_str(), out[k].as_str()) < 0)
            invariant
                k <= out.len(),
                first_greater(strings_view(out@), x@) == k + first_greater(strings_view(out@).skip(k as int), x@),
            decreases out.len() - k,
        {
            assert(strings_view(out@).skip(k as int)[0] == out@[k as int]@);
            assert(strings_view(out@).skip(k as int).drop_first() =~= strings_view(out@).skip(k + 1));
            k += 1;
        }
        proof {
            if k < out.len() {
                assert(strings_view(out@).skip(k as int)[0] == out@[k as int]@);
            }
            assert(first_greater(strings_view(out@).skip(k as int), x@) == 0);
        }
        let ghost before = strings_view(out@);
        let ghost xv = x@;
        out.insert(k, x);
        proof {
            assert(strings_view(out@) =~= before.insert(k as int, xv));
            i = i + 1;
        }
    }
    assert(sv.take(sv.len() as int) =~= sv);
    out
}

fn change_list(cur: Vec<String>, name: &str, enabled: bool) -> (r: Vec<String>)
    ensures
        strings_view(r@) == changed_list(strings_view(cur@), name@, enabled),
{
    let ghost cv = strings_view(cur@);
    if enabled {
        let mut i: usize = 0;
        while i < cur.len()
            invariant
                i <= cur.len(),
                enabled,
                cv == strings_view(cur@),
                forall|j: int| 0 <= j < i ==> cv[j] != name@,
            decreases cur.len() - i,
        {
            if text::str_eq(cur[i].as_str(), name) {
                assert(cv[i as int] == name@);
                assert(cv.contains(name@));
                return cur;
            }
            i += 1;
        }
        let mut out = cur;
        let ghost before = strings_view(out@);
        out.push(text::owned(name));
        assert(strings_view(out@) =~= before.push(name@));
        assert(!cv.contains(name@)) by {
            if cv.contains(name@) {
                let j = choose|j: int| 0 <= j < cv.len() && cv[j] == name@;
            }
        }
        out
    } else {
        let mut out: Vec<String> = Vec::new();
        let mut i: usize = 0;
        assert(cv.take(0) =~= seq![]);
        assert(strings_view(out@) =~= seq![]);
        while i < cur.len()
            invariant
                i <= cur.len(),
                cv == strings_view(cur@),
                strings_view(out@) == without_text(cv.take(i as int), name@),
            decreases cur.len() - i,
        {
            assert(cv.take(i + 1).drop_last() =~= cv.take(i as int));
            assert(cv.take(i + 1).last() == cur@[i as int]@);
            if !text::str_eq(cur[i].as_str(), name) {
                let ghost before = strings_view(out@);
                let s = text::owned(cur[i].as_str());
                out.push(s);
                assert(strings_view(out@) =~= before.push(s@));
            }
            i += 1;
        }
        assert(cv.take(cur.len() as int) =~= cv);
        out
    }
}

fn cli_section_exec(list: &Vec<String>) -> (r: Vec<char>)
    ensures
        r@ == cli_section(strings_view(list@)),
{
    let ghost sv = strings_view(list@);
    let mut parts: Vec<Vec<char>> = Vec::new();
    let mut i: usize = 0;
    while i < list.len()
        invariant
            i <= list.len(),
            sv == strings_view(list@),
            parts@.map_values(|p: Vec<char>| p@) =~= sv.map_values(|t: Seq<char>| "      - "@ + t).take(i as int),
        decreases list.len() - i,
    {
        let mut p = chars_of("      - ");
        text::push_str(&mut p, list[i].as_str());
        let ghost before = parts@;
        parts.push(p);
        assert(parts@.map_values(|q: Vec<char>| q@) =~= before.map_values(|q: Vec<char>| q@).push(p@));
        i += 1;
    }
    assert(sv.map_values(|t: Seq<char>| "      - "@ + t).take(list.len() as int) =~= sv.map_values(|t: Seq<char>| "      - "@ + t));
    let nl = chars_of("\n");
    let body = text::join_exec(&parts, &nl);
    let mut r = chars_of("  cli:\n");
    text::push_all(&mut r, &body);
    r
}

/// Turns a toolset on or off in the text of `config.yaml`.
pub fn set_toolset_enabled(content: &str, name: &str, enabled: bool) -> (r: String)
    ensures
        r@ == toolset_edit(content@, name@, enabled),
{
    let cur = parse_enabled_toolsets(content);
    let changed = change_list(cur, name, enabled);
    let sorted = sort_ascending(changed);
    let section = cli_section_exec(&sorted);
    let c = chars_of(content);
    let pt = chars_of("platform_toolsets");
    if text::contains_exec(&c, &pt) {
        let ls = lines_exec(&c);
        let ghost lv = lines(c@);
        let p_t: Vec<char> = chars_of("platform_toolsets");
        let colon: Vec<char> = chars_of(":");
        let cli: Vec<char> = chars_of("cli:");
        let sp: Vec<char> = chars_of(" ");
        let dash: Vec<char> = chars_of("-");
        let nl: Vec<char> = chars_of("\n");
        let mut in_pts = false;
        let mut in_cli = false;
        let mut inserted = false;
        let mut res: Vec<char> = Vec::new();
        let mut i: usize = 0;
        assert(lv.take(0) =~= seq![]);
        while i < ls.len()
            invariant
                i <= ls.len(),
                ls@.len() == lv.len(),
                lv == lines(c@),
                forall|k: int| 0 <= k < ls@.len() ==> #[trigger] ls@[k]@ == lv[k],
                p_t@ == "platform_toolsets"@,
                colon@ == ":"@,
                cli@ == "cli:"@,
                sp@ == " "@,
                dash@ == "-"@,
                nl@ == "\n"@,
                edit_scan(lv.take(i as int), section@) == (in_pts, in_cli, inserted, res@),
            decreases ls.len() - i,
        {
            assert(lv.take(i + 1).drop_last() =~= lv.take(i as int));
            assert(lv.take(i + 1).last() == ls@[i as int]@);
            let line = &ls[i];
            let t = trim_end_vec(line);
            let ts = trim_start_vec(&t);
            let tt = text::trim_vec(&t);
            if text::starts_with_exec(&ts, &p_t) && text::contains_exec(&t, &colon) {
                in_pts = true;
                text::push_all(&mut res, line);
                text::push_all(&mut res, &nl);
            } else if in_pts && text::starts_with_exec(&ts, &cli) {
                in_cli = true;
                inserted = true;
                text::push_all(&mut res, &section);
                text::push_all(&mut res, &nl);
            } else if in_cli {
                if text::starts_with_exec(&ts, &dash) {
                } else if !text::starts_with_exec(&t, &sp) || tt.len() == 0 {
                    in_cli = false;
                    text::push_all(&mut res, line);
                    text::push_all(&mut res, &nl);
                }
            } else if in_pts && !text::starts_with_exec(&t, &sp) && t.len() > 0 {
                in_pts = false;
                if !inserted {
                    text::push_all(&mut res, &section);
                    text::push_all(&mut res, &nl);
                    inserted = true;
                }
                text::push_all(&mut res, line);
                text::push_all(&mut res, &nl);
            } else {
                text::push_all(&mut res, line);
                text::push_all(&mut res, &nl);
            }
            i += 1;
        }
        assert(lv.take(ls.len() as int) =~= lv);
        let mut out = trim_end_vec(&res);
        out.push('\n');
        proof { reveal_strlit("\n"); }
        string_of(out.as_slice())
    } else {
        let mut out = trim_end_vec(&c);
        text::push_str(&mut out, "\nplatform_toolsets:\n");
        text::push_all(&mut out, &section);
        out.push('\n');
        proof { reveal_strlit("\n"); }
        string_of(out.as_slice())
    }
}

} // verus!
