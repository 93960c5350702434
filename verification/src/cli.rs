//! The local Hermes command line: the chat fallback's arguments and the
//! reading of its output, and the gateway process's environment and PID file.
use vstd::prelude::*;
use crate::chat::{ansi_stripped, file_blocks, strip_ansi, SendResult};
use crate::json::{items_view, json_parse, Json, JsonValue};
use crate::text::{chars_of, dec_text, find_sub, is_ws, join, lines, push_all, push_str, slice, string_of, trim};
use crate::text;

verus! {

// ───────────────────────── arguments ─────────────────────────

/// The message with its text files inlined (names and types XML-escaped),
/// after a blank line, or alone when the message is blank.
pub open spec fn cli_message(message: Seq<char>, atts: Seq<Json>) -> Seq<char> {
    let wraps = file_blocks(atts, true);
    if wraps.len() == 0 {
        message
    } else {
        let wrapped = join(wraps, "\n\n"@);
        if trim(message).len() == 0 {
            wrapped
        } else {
            message + "\n\n"@ + wrapped
        }
    }
}

/// `hermes chat` arguments: quiet, from the desktop, with the profile unless
/// it is the default, the session to resume and the model when set.
pub open spec fn cli_args(msg: Seq<char>, profile: Option<Seq<char>>, resume: Option<Seq<char>>, model: Seq<char>) -> Seq<Seq<char>> {
    let base = seq!["chat"@, "-q"@, msg, "-Q"@, "--source"@, "desktop"@];
    let p = match profile {
        Some(p) => if p != "default"@ {
            seq!["-p"@, p]
        } else {
            seq![]
        },
        None => seq![],
    };
    let r = match resume {
        Some(s) => seq!["--resume"@, s],
        None => seq![],
    };
    let m = if model.len() > 0 {
        seq!["-m"@, model]
    } else {
        seq![]
    };
    base + p + r + m
}

pub open spec fn strings_view(v: Seq<String>) -> Seq<Seq<char>> {
    v.map_values(|s: String| s@)
}

fn push_string(v: &mut Vec<String>, s: &str)
    ensures
        strings_view(final(v)@) == strings_view(old(v)@).push(s@),
{
    v.push(text::owned(s));
    assert(strings_view(final(v)@) =~= strings_view(old(v)@).push(s@));
}

/// The arguments of the chat command of the CLI fallback.
pub fn build_cli_args(
    message: &str,
    attachments: &[JsonValue],
    profile: Option<&str>,
    resume_session_id: Option<&str>,
    model: &str,
) -> (r: Vec<String>)
    ensures
        strings_view(r@) == cli_args(
            cli_message(message@, items_view(attachments@)),
            crate::paths::opt_view(profile),
            crate::paths::opt_view(resume_session_id),
            model@,
        ),
{
    let wraps = crate::chat::file_blocks_exec(attachments, true);
    let msg: Vec<char> = if wraps.len() == 0 {
        chars_of(message)
    } else {
        let sep = chars_of("\n\n");
        let wrapped = text::join_exec(&wraps, &sep);
        let t = text::trim_str(message);
        if t.as_str().unicode_len() == 0 {
            wrapped
        } else {
            let mut m = chars_of(message);
            push_str(&mut m, "\n\n");
            push_all(&mut m, &wrapped);
            m
        }
    };
    assert(msg@ == cli_message(message@, items_view(attachments@)));
    let ms = string_of(msg.as_slice());
    let mut v: Vec<String> = Vec::new();
    push_string(&mut v, "chat");
    push_string(&mut v, "-q");
    push_string(&mut v, ms.as_str());
    push_string(&mut v, "-Q");
    push_string(&mut v, "--source");
    push_string(&mut v, "desktop");
    match profile {
        Some(p) => {
            if !text::str_eq(p, "default") {
                push_string(&mut v, "-p");
                push_string(&mut v, p);
            }
        },
        None => {},
    }
    match resume_session_id {
        Some(s) => {
            push_string(&mut v, "--resume");
            push_string(&mut v, s);
        },
        None => {},
    }
    if model.unicode_len() > 0 {
        push_string(&mut v, "-m");
        push_string(&mut v, model);
    }
    assert(strings_view(v@) =~= cli_args(
        msg@,
        crate::paths::opt_view(profile),
        crate::paths::opt_view(resume_session_id),
        model@,
    ));
    v
}

// ───────────────────────── output ─────────────────────────

/// The output collected so far and the session id the CLI printed.
pub struct CliState {
    pub full_output: String,
    pub captured_sid: String,
}

/// Decorations of the CLI's banner: box-drawing lines and the caduceus.
pub open spec fn banner_char(c: char) -> bool {
    c == '\u{256d}' || c == '\u{2570}' || c == '\u{2502}' || c == '\u{256e}' || c == '\u{256f}' || c
        == '\u{2695}'
}

/// A line kept in the answer: blank, or not starting with a banner character.
pub open spec fn kept_line(l: Seq<char>) -> bool {
    let t = trim(l);
    t.len() == 0 || !banner_char(t[0])
}

pub open spec fn kept_lines(ls: Seq<Seq<char>>) -> Seq<Seq<char>>
    decreases ls.len(),
{
    if ls.len() == 0 {
        seq![]
    } else if kept_line(ls.last()) {
        kept_lines(ls.drop_last()).push(ls.last())
    } else {
        kept_lines(ls.drop_last())
    }
}

/// The position of the first whitespace character.
pub open spec fn first_ws(s: Seq<char>) -> Option<int>
    decreases s.len(),
{
    if s.len() == 0 {
        None
    } else if is_ws(s[0]) {
        Some(0)
    } else {
        match first_ws(s.drop_first()) {
            Some(i) => Some(i + 1),
            None => None,
        }
    }
}

/// The session id after `session_id:` up to the next whitespace, when both
/// are in the text.
pub open spec fn sid_in(cleaned: Seq<char>) -> Option<Seq<char>> {
    match find_sub(cleaned, "session_id:"@) {
        Some(p) => {
            let rest = cleaned.skip(p + 11);
            match first_ws(rest) {
                Some(e) => Some(rest.take(e)),
                None => None,
            }
        },
        None => None,
    }
}

/// A piece of CLI output without colours and banner lines.
pub open spec fn cli_filtered(text: Seq<char>) -> Seq<char> {
    join(kept_lines(lines(ansi_stripped(text))), seq!['\n'])
}

fn first_ws_exec(s: &Vec<char>, from: usize) -> (r: Option<usize>)
    requires
        from <= s.len(),
    ensures
        match r {
            Some(e) => first_ws(s@.skip(from as int)) == Some(e - from) && from <= e < s.len(),
            None => first_ws(s@.skip(from as int)) is None,
        },
{
    let mut e = from;
    while e < s.len()
        invariant
            from <= e <= s.len(),
            first_ws(s@.skip(from as int)) == match first_ws(s@.skip(e as int)) {
                Some(i) => Some(i + (e - from)),
                None => None,
            },
        decreases s.len() - e,
    {
        assert(s@.skip(e as int).drop_first() =~= s@.skip(e + 1));
        if text::is_ws_char(s[e]) {
            return Some(e);
        }
        e += 1;
    }
    None
}

/// Reads a piece of the CLI's output: remembers a printed session id, and
/// returns the piece without colours and banner lines when it is not blank
/// (it is then added, with a line break, to the answer).
pub fn cli_chunk(state: &mut CliState, text: &str) -> (r: Option<String>)
    ensures
        final(state).captured_sid@ == match sid_in(ansi_stripped(text@)) {
            Some(s) => s,
            None => old(state).captured_sid@,
        },
        trim(cli_filtered(text@)).len() > 0 ==> (r matches Some(f) && f@ == cli_filtered(text@)
            && final(state).full_output@ == old(state).full_output@ + cli_filtered(text@) + seq!['\n']),
        trim(cli_filtered(text@)).len() == 0 ==> r is None && final(state).full_output@ == old(state).full_output@,
{
    let cleaned = strip_ansi(text);
    let c = chars_of(cleaned.as_str());
    let key = chars_of("session_id:");
    proof {
        reveal_strlit("session_id:");
    }
    assert(c@.skip(0) =~= c@);
    match text::find_from(&c, &key, 0) {
        Some(p) => {
            proof {
                text::lemma_find_sub(c@, "session_id:"@);
            }
            match first_ws_exec(&c, p + 11) {
                Some(e) => {
                    state.captured_sid = string_of(slice(&c, p + 11, e).as_slice());
                    assert(c@.skip(p + 11).take(e - (p + 11)) =~= c@.subrange(p + 11, e as int));
                },
                None => {},
            }
        },
        None => {},
    }
    let ls = text::lines_exec(&c);
    let ghost all = lines(c@);
    let mut kept: Vec<Vec<char>> = Vec::new();
    let mut i: usize = 0;
    while i < ls.len()
        invariant
            i <= ls.len(),
            all == lines(c@),
            ls@.len() == all.len(),
            forall|k: int| 0 <= k < ls@.len() ==> #[trigger] ls@[k]@ == all[k],
            kept@.map_values(|p: Vec<char>| p@) == kept_lines(all.take(i as int)),
        decreases ls.len() - i,
    {
        proof {
            assert(all.take(i + 1).drop_last() =~= all.take(i as int));
            assert(all.take(i + 1).last() == ls@[i as int]@);
        }
        let t = text::trim_vec(&ls[i]);
        let keep = t.len() == 0 || !(t[0] == '\u{256d}' || t[0] == '\u{2570}' || t[0] == '\u{2502}'
            || t[0] == '\u{256e}' || t[0] == '\u{256f}' || t[0] == '\u{2695}');
        if keep {
            let ghost before = kept@.map_values(|p: Vec<char>| p@);
            let piece = slice(&ls[i], 0, ls[i].len());
            assert(piece@ =~= ls@[i as int]@);
            kept.push(piece);
            assert(kept@.map_values(|p: Vec<char>| p@) =~= before.push(all[i as int]));
        }
        i += 1;
    }
    assert(all.take(ls.len() as int) =~= all);
    let nl: Vec<char> = vec!['\n'];
    assert(nl@ =~= seq!['\n']);
    let f = text::join_exec(&kept, &nl);
    let ft = text::trim_vec(&f);
    if ft.len() == 0 {
        return None;
    }
    let mut full = chars_of(state.full_output.as_str());
    push_all(&mut full, &f);
    full.push('\n');
    state.full_output = string_of(full.as_slice());
    Some(string_of(f.as_slice()))
}

/// `{:?}` of an `i32`.
pub open spec fn i32_text(n: i32) -> Seq<char> {
    if n < 0 {
        seq!['-'] + dec_text((-n) as nat)
    } else {
        dec_text(n as nat)
    }
}

/// `{:?}` of an exit code: `Some(n)` or `None`.
pub open spec fn code_text(code: Option<i32>) -> Seq<char> {
    match code {
        Some(n) => "Some("@ + i32_text(n) + ")"@,
        None => "None"@,
    }
}

fn code_text_exec(code: Option<i32>) -> (r: Vec<char>)
    ensures
        r@ == code_text(code),
{
    match code {
        Some(n) => {
            let mut v = chars_of("Some(");
            if n < 0 {
                v.push('-');
                let m: u64 = (0i64 - (n as i64)) as u64;
                text::push_dec(&mut v, m);
            } else {
                text::push_dec(&mut v, n as u64);
            }
            push_str(&mut v, ")");
            assert(v@ =~= code_text(code));
            v
        },
        None => chars_of("None"),
    }
}

/// The result of the CLI fallback: the collected answer when the process
/// succeeded or printed something, under the printed session (else
/// `fresh_sid`); otherwise the exit code and the error output.
pub open spec fn cli_outcome(full: Seq<char>, captured: Seq<char>, success: bool, code: Option<i32>, stderr: Seq<char>, fresh_sid: Seq<char>) -> Result<(Seq<char>, Seq<char>), Seq<char>> {
    let sid = if captured.len() == 0 {
        fresh_sid
    } else {
        captured
    };
    if success || trim(full).len() > 0 {
        Ok((full, sid))
    } else {
        let detail = trim(stderr);
        if detail.len() == 0 {
            Err("Hermes exited with code "@ + code_text(code))
        } else {
            Err("Hermes exited with code "@ + code_text(code) + ": "@ + detail)
        }
    }
}

/// Finishes the CLI fallback once the process has exited.
pub fn cli_finish(state: &CliState, success: bool, code: Option<i32>, stderr: &str, fresh_sid: &str) -> (r: Result<SendResult, String>)
    ensures
        match cli_outcome(state.full_output@, state.captured_sid@, success, code, stderr@, fresh_sid@) {
            Ok(x) => r matches Ok(s) && s.response@ == x.0 && (s.session_id matches Some(i) && i@ == x.1),
            Err(e) => r matches Err(m) && m@ == e,
        },
{
    let sid = if state.captured_sid.as_str().unicode_len() == 0 {
        text::owned(fresh_sid)
    } else {
        text::owned(state.captured_sid.as_str())
    };
    let t = text::trim_str(state.full_output.as_str());
    if success || t.as_str().unicode_len() > 0 {
        return Ok(SendResult { response: text::owned(state.full_output.as_str()), session_id: Some(sid) });
    }
    let detail = text::trim_str(stderr);
    let mut v = chars_of("Hermes exited with code ");
    let ct = code_text_exec(code);
    push_all(&mut v, &ct);
    if detail.as_str().unicode_len() > 0 {
        push_str(&mut v, ": ");
        push_str(&mut v, detail.as_str());
    }
    Err(string_of(v.as_slice()))
}

// ───────────────────────── the gateway's PID file ─────────────────────────

/// The value of a decimal digit string.
pub open spec fn digits_value(d: Seq<char>) -> int
    decreases d.len(),
{
    if d.len() == 0 {
        0
    } else {
        digits_value(d.drop_last()) * 10 + (d.last() as int - '0' as int)
    }
}

pub open spec fn all_digits(d: Seq<char>) -> bool {
    forall|i: int| 0 <= i < d.len() ==> '0' <= #[trigger] d[i] && d[i] <= '9'
}

/// `u32::from_str`: an optional `+`, then decimal digits of a value that fits.
pub open spec fn parse_u32(s: Seq<char>) -> Option<int> {
    let d = if s.len() > 0 && s[0] == '+' {
        s.drop_first()
    } else {
        s
    };
    if d.len() > 0 && all_digits(d) && digits_value(d) <= u32::MAX {
        Some(digits_value(d))
    } else {
        None
    }
}

pub proof fn lemma_digits_value_nonneg(d: Seq<char>)
    requires
        all_digits(d),
    ensures
        digits_value(d) >= 0,
    decreases d.len(),
{
    if d.len() > 0 {
        lemma_digits_value_nonneg(d.drop_last());
    }
}

/// Parses a `u32` as `str::parse` does.
pub fn parse_u32_exec(s: &Vec<char>) -> (r: Option<u32>)
    ensures
        match r {
            Some(n) => parse_u32(s@) == Some(n as int),
            None => parse_u32(s@) is None,
        },
{
    let start: usize = if s.len() > 0 && s[0] == '+' {
        1
    } else {
        0
    };
    let ghost d = s@.skip(start as int);
    assert(d =~= if s@.len() > 0 && s@[0] == '+' { s@.drop_first() } else { s@ });
    if start >= s.len() {
        return None;
    }
    let mut v: u64 = 0;
    let mut i = start;
    while i < s.len()
        invariant
            start <= i <= s.len(),
            start < s.len(),
            d == s@.skip(start as int),
            parse_u32(s@) == (if d.len() > 0 && all_digits(d) && digits_value(d) <= u32::MAX {
                Some(digits_value(d))
            } else {
                None
            }),
            all_digits(d.take(i - start)),
            v == digits_value(d.take(i - start)),
            v <= u32::MAX,
        decreases s.len() - i,
    {
        let c = s[i];
        assert(d.take(i - start + 1).drop_last() =~= d.take(i - start));
        assert(d[i - start] == c);
        if !('0' <= c && c <= '9') {
            assert(!all_digits(d));
            return None;
        }
        let dv = (c as u32 - '0' as u32) as u64;
        let nv = v * 10 + dv;
        if nv > 4294967295 {
            proof {
                assert(all_digits(d.take(i - start + 1)));
                assert(digits_value(d.take(i - start + 1)) == nv);
                lemma_digits_prefix_bound(d, i - start + 1);
            }
            return None;
        }
        v = nv;
        i += 1;
        assert(all_digits(d.take(i - start)));
    }
    assert(d.take(s.len() - start) =~= d);
    Some(v as u32)
}

/// A longer digit string is worth at least its prefix.
pub proof fn lemma_digits_prefix_bound(d: Seq<char>, k: int)
    requires
        0 <= k <= d.len(),
    ensures
        all_digits(d) ==> digits_value(d) >= digits_value(d.take(k)),
    decreases d.len() - k,
{
    if k < d.len() && all_digits(d) {
        lemma_digits_prefix_bound(d, k + 1);
        assert(d.take(k + 1).drop_last() =~= d.take(k));
        assert(all_digits(d.take(k)));
        lemma_digits_value_nonneg(d.take(k));
    } else if k == d.len() {
        assert(d.take(k) =~= d);
    }
}

/// The gateway's process id from its PID file: the trimmed text as a number,
/// or else the `pid` member of its JSON (cut to 32 bits).
pub open spec fn pid_of(raw: Seq<char>) -> Option<int> {
    match parse_u32(trim(raw)) {
        Some(n) => Some(n),
        None => match json_parse(raw) {
            Some(v) => match v.get("pid"@) {
                Some(p) => match p.as_u64() {
                    Some(n) => Some((n as u64) as u32 as int),
                    None => None,
                },
                None => None,
            },
            None => None,
        },
    }
}

/// Reads the gateway's process id from the text of its PID file.
pub fn parse_pid(raw: &str) -> (r: Option<u32>)
    ensures
        match r {
            Some(n) => pid_of(raw@) == Some(n as int),
            None => pid_of(raw@) is None,
        },
{
    let c = chars_of(raw);
    let t = text::trim_vec(&c);
    match parse_u32_exec(&t) {
        Some(n) => Some(n),
        None => match crate::json::parse_json(raw) {
            Some(v) => match v.get("pid") {
                Some(p) => match p.as_u64() {
                    Some(n) => Some(n as u32),
                    None => None,
                },
                None => None,
            },
            None => None,
        },
    }
}

} // verus!
