//! Messaging platforms of the gateway: whether each is enabled (credentials
//! in `.env`, an `enabled: false` override in `config.yaml`) and the edit of
//! `config.yaml` that switches one on or off.
use vstd::prelude::*;
use crate::kv::StrMap;
use crate::sse::{run_len, run_len_exec};
use crate::text::{chars_of, matches_at, matches_at_exec, push_all, push_str, slice, string_of, strip_cr, trim};
use crate::text;
use crate::yaml::{
    at_line_start, blank_len, blank_len_exec, block_body, block_body_exec, first_header, header_end, is_blank,
    is_blank_char,
    lemma_line_end, line_end, line_end_exec, next_line, next_line_exec,
};

verus! {

// ───────────────────────── lines of a block ─────────────────────────

/// The line at `pos` as `str::lines` yields it.
pub open spec fn line_at(s: Seq<char>, pos: int) -> Seq<char> {
    let le = line_end(s, pos);
    if le < s.len() {
        strip_cr(s.subrange(pos, le))
    } else {
        s.subrange(pos, le)
    }
}

fn line_at_exec(s: &Vec<char>, pos: usize) -> (r: Vec<char>)
    requires
        pos <= s.len(),
    ensures
        r@ == line_at(s@, pos as int),
        r@.len() <= line_end(s@, pos as int) - pos,
{
    proof {
        lemma_line_end(s@, pos as int);
    }
    let le = line_end_exec(s, pos);
    let l = slice(s, pos, le);
    if le < s.len() {
        text::strip_cr_exec(l)
    } else {
        l
    }
}

/// An ASCII word character `[0-9A-Za-z_]`.
pub open spec fn is_word(c: char) -> bool {
    ('a' <= c && c <= 'z') || ('A' <= c && c <= 'Z') || ('0' <= c && c <= '9') || c == '_'
}

/// `\b` after a word character at `i`: the end, or a non-word character.
pub open spec fn word_end(l: Seq<char>, i: int) -> bool {
    i >= l.len() || !is_word(l[i])
}

/// `^[ \t]+enabled:[ \t]*(true|false)\b`: the flag an override line sets.
pub open spec fn enabled_flag(l: Seq<char>) -> Option<bool> {
    let b = blank_len(l);
    if b == 0 || !matches_at(l, "enabled:"@, b as int) {
        None
    } else {
        let q = (b + 8) as int;
        let r = q + blank_len(l.skip(q));
        if matches_at(l, "true"@, r) && word_end(l, r + 4) {
            Some(true)
        } else if matches_at(l, "false"@, r) && word_end(l, r + 5) {
            Some(false)
        } else {
            None
        }
    }
}

/// The override in the block lines from `pos`: the first flag line, before
/// a line that is not indented.
pub open spec fn override_scan(s: Seq<char>, pos: int) -> Option<bool>
    decreases s.len() - pos,
{
    if pos < 0 || pos >= s.len() {
        None
    } else {
        proof {
            lemma_line_end(s, pos);
        }
        let l = line_at(s, pos);
        if trim(l).len() == 0 {
            override_scan(s, next_line(s, pos))
        } else if !(l[0] == ' ' || l[0] == '\t') {
            None
        } else if enabled_flag(l) is Some {
            enabled_flag(l)
        } else {
            override_scan(s, next_line(s, pos))
        }
    }
}

/// The `enabled:` override of a platform block in `config.yaml`.
pub open spec fn platform_override(c: Seq<char>, key: Seq<char>) -> Option<bool> {
    match block_body(c, key) {
        None => None,
        Some(s) => override_scan(c.skip(s), 0),
    }
}

pub(crate) fn is_word_exec(c: char) -> (b: bool)
    ensures
        b == is_word(c),
{
    ('a' <= c && c <= 'z') || ('A' <= c && c <= 'Z') || ('0' <= c && c <= '9') || c == '_'
}

fn enabled_flag_exec(l: &Vec<char>) -> (r: Option<bool>)
    ensures
        r == enabled_flag(l@),
{
    let b = blank_len_exec(l);
    let kw = chars_of("enabled:");
    proof {
        reveal_strlit("enabled:");
    }
    if b == 0 || !matches_at_exec(l, &kw, b) {
        return None;
    }
    let q = b + 8;
    let tail = slice(l, q, l.len());
    assert(tail@ =~= l@.skip(q as int));
    let r = q + blank_len_exec(&tail);
    let t = chars_of("true");
    let f = chars_of("false");
    proof {
        reveal_strlit("true");
        reveal_strlit("false");
    }
    if matches_at_exec(l, &t, r) && (r + 4 >= l.len() || !is_word_exec(l[r + 4])) {
        Some(true)
    } else if matches_at_exec(l, &f, r) && (r + 5 >= l.len() || !is_word_exec(l[r + 5])) {
        Some(false)
    } else {
        None
    }
}

/// Reads the `enabled: true|false` override of the platform block
/// `config_key` from a `config.yaml` text.
pub fn read_platform_override(content: &str, config_key: &str) -> (r: Option<bool>)
    ensures
        r == platform_override(content@, config_key@),
{
    let c = chars_of(content);
    let k = chars_of(config_key);
    let s = match block_body_exec(&c, &k) {
        None => {
            return None;
        },
        Some(s) => s,
    };
    let rest = slice(&c, s, c.len());
    assert(rest@ =~= c@.skip(s as int));
    let mut pos: usize = 0;
    while pos < rest.len()
        invariant
            pos <= rest.len(),
            rest@ == content@.skip(s as int),
            block_body(content@, config_key@) == Some(s as int),
            override_scan(rest@, pos as int) == platform_override(content@, config_key@),
        decreases rest.len() - pos,
    {
        let l = line_at_exec(&rest, pos);
        let nxt = next_line_exec(&rest, pos);
        let t = text::trim_vec(&l);
        if t.len() == 0 {
            pos = nxt;
        } else if !(l[0] == ' ' || l[0] == '\t') {
            return None;
        } else {
            match enabled_flag_exec(&l) {
                Some(v) => {
                    return Some(v);
                },
                None => {
                    pos = nxt;
                },
            }
        }
    }
    None
}


// ───────────────────────── replacement text ─────────────────────────

/// The number of leading `[0-9A-Za-z_]` characters.
pub open spec fn cap_run(s: Seq<char>) -> nat
    decreases s.len(),
{
    if s.len() > 0 && is_word(s[0]) {
        1 + cap_run(s.drop_first())
    } else {
        0
    }
}

/// A group reference that parses as the number 0 (`+` allowed in front, as
/// `usize::from_str` allows).
pub open spec fn zero_ref(name: Seq<char>) -> bool {
    let d = ref_digits(name);
    d.len() > 0 && forall|i: int| 0 <= i < d.len() ==> #[trigger] d[i] == '0'
}

/// A reference without its leading `+`.
pub open spec fn ref_digits(name: Seq<char>) -> Seq<char> {
    if name.len() > 0 && name[0] == '+' {
        name.drop_first()
    } else {
        name
    }
}

pub open spec fn group0(is_zero: bool, whole: Seq<char>) -> Seq<char> {
    if is_zero {
        whole
    } else {
        seq![]
    }
}

/// A replacement string with its `$` references expanded, for a pattern
/// without capture groups: `$$` is a `$`, a reference to group 0 (`$0`,
/// `${0}`) is the whole match `whole`, any other reference is empty, and a
/// `$` that starts no reference stays.
pub open spec fn interp0(rep: Seq<char>, whole: Seq<char>) -> Seq<char>
    decreases rep.len(),
{
    if rep.len() == 0 {
        seq![]
    } else if rep[0] != '$' {
        seq![rep[0]] + interp0(rep.drop_first(), whole)
    } else if rep.len() >= 2 && rep[1] == '$' {
        seq!['$'] + interp0(rep.skip(2), whole)
    } else if rep.len() >= 2 && rep[1] == '{' {
        match text::find_sub(rep.skip(2), seq!['}']) {
            Some(j) => if 0 <= j && 3 + j <= rep.len() {
                group0(zero_ref(rep.subrange(2, 2 + j)), whole) + interp0(rep.skip(3 + j), whole)
            } else {
                seq![]
            },
            None => seq!['$'] + interp0(rep.drop_first(), whole),
        }
    } else {
        let n = cap_run(rep.drop_first()) as int;
        if n == 0 {
            seq!['$'] + interp0(rep.drop_first(), whole)
        } else if 1 + n <= rep.len() {
            group0(zero_ref(rep.subrange(1, 1 + n)), whole) + interp0(rep.skip(1 + n), whole)
        } else {
            seq![]
        }
    }
}

pub proof fn lemma_cap_run(s: Seq<char>, k: int)
    requires
        0 <= k <= s.len(),
        forall|j: int| 0 <= j < k ==> is_word(#[trigger] s[j]),
        k == s.len() || !is_word(s[k]),
    ensures
        cap_run(s) == k,
    decreases k,
{
    if k > 0 {
        let t = s.drop_first();
        assert forall|j: int| 0 <= j < k - 1 implies is_word(#[trigger] t[j]) by {
            assert(t[j] == s[j + 1]);
        }
        lemma_cap_run(t, k - 1);
    }
}

pub(crate) fn zero_ref_exec(rep: &Vec<char>, lo: usize, hi: usize) -> (b: bool)
    requires
        lo <= hi <= rep.len(),
    ensures
        b == zero_ref(rep@.subrange(lo as int, hi as int)),
{
    let ghost name = rep@.subrange(lo as int, hi as int);
    let start = if lo < hi && rep[lo] == '+' {
        lo + 1
    } else {
        lo
    };
    let ghost d = rep@.subrange(start as int, hi as int);
    assert(d =~= ref_digits(name));
    if start >= hi {
        return false;
    }
    let mut i = start;
    while i < hi
        invariant
            start <= i <= hi <= rep.len(),
            d == rep@.subrange(start as int, hi as int),
            forall|k: int| 0 <= k < i - start ==> d[k] == '0',
            d == ref_digits(rep@.subrange(lo as int, hi as int)),
        decreases hi - i,
    {
        if rep[i] != '0' {
            assert(d[i - start] != '0');
            return false;
        }
        i += 1;
    }
    true
}

/// Expands a replacement string for a match `whole` (see [`interp0`]).
fn interp0_exec(rep: &Vec<char>, whole: &Vec<char>) -> (r: Vec<char>)
    ensures
        r@ == interp0(rep@, whole@),
{
    let mut out: Vec<char> = Vec::new();
    let mut i: usize = 0;
    let close: Vec<char> = vec!['}'];
    assert(close@ =~= seq!['}']);
    assert(rep@.skip(0) =~= rep@);
    while i < rep.len()
        invariant
            i <= rep.len(),
            close@ == seq!['}'],
            interp0(rep@, whole@) == out@ + interp0(rep@.skip(i as int), whole@),
        decreases rep.len() - i,
    {
        let ghost t = rep@.skip(i as int);
        if rep[i] != '$' {
            out.push(rep[i]);
            assert(t.drop_first() =~= rep@.skip(i + 1));
            i += 1;
        } else if i + 1 < rep.len() && rep[i + 1] == '$' {
            out.push('$');
            assert(t.skip(2) =~= rep@.skip(i + 2));
            i += 2;
        } else if i + 1 < rep.len() && rep[i + 1] == '{' {
            assert(t.skip(2) =~= rep@.skip(i + 2));
            match text::find_from(rep, &close, i + 2) {
                Some(j) => {
                    proof {
                        text::lemma_find_sub(rep@.skip(i + 2), seq!['}']);
                        assert(t.subrange(2, 2 + (j - i - 2)) =~= rep@.subrange(i + 2, j as int));
                        assert(t.skip(3 + (j - i - 2)) =~= rep@.skip(j + 1));
                    }
                    if zero_ref_exec(rep, i + 2, j) {
                        push_all(&mut out, whole);
                    }
                    i = j + 1;
                },
                None => {
                    out.push('$');
                    assert(t.drop_first() =~= rep@.skip(i + 1));
                    i += 1;
                },
            }
        } else {
            let mut e = i + 1;
            while e < rep.len() && is_word_exec(rep[e])
                invariant
                    i + 1 <= e <= rep.len(),
                    forall|k: int| i + 1 <= k < e ==> is_word(#[trigger] rep@[k]),
                decreases rep.len() - e,
            {
                e += 1;
            }
            proof {
                let u = t.drop_first();
                assert forall|k: int| 0 <= k < e - i - 1 implies is_word(#[trigger] u[k]) by {
                    assert(u[k] == rep@[i + 1 + k]);
                }
                if e < rep.len() {
                    assert(u[e - i - 1] == rep@[e as int]);
                }
                lemma_cap_run(u, e - i - 1);
            }
            if e == i + 1 {
                out.push('$');
                assert(t.drop_first() =~= rep@.skip(i + 1));
                i += 1;
            } else {
                assert(t.subrange(1, 1 + (e - i - 1)) =~= rep@.subrange(i + 1, e as int));
                assert(t.skip(1 + (e - i - 1)) =~= rep@.skip(e as int));
                if zero_ref_exec(rep, i + 1, e) {
                    push_all(&mut out, whole);
                }
                i = e;
            }
        }
    }
    assert(rep@.skip(rep.len() as int).len() == 0);
    out
}


// ───────────────────────── switching a platform ─────────────────────────

/// The `config.yaml` block of a platform (`home_assistant` is `homeassistant`).
pub open spec fn platform_key(platform: Seq<char>) -> Seq<char> {
    if platform == "home_assistant"@ {
        "homeassistant"@
    } else {
        platform
    }
}

pub open spec fn bool_text(b: bool) -> Seq<char> {
    if b {
        "true"@
    } else {
        "false"@
    }
}

/// The end of an empty flow block `key: {}` whose line starts at `p`:
/// `^key:[ \t]*\{\s*\}[ \t]*$`.
pub open spec fn flow_end(c: Seq<char>, key: Seq<char>, p: int) -> Option<int> {
    let k = key + seq![':'];
    if !matches_at(c, k, p) {
        None
    } else {
        let q1 = p + k.len() + blank_len(c.skip(p + k.len()));
        if q1 < c.len() && c[q1] == '{' {
            let q2 = q1 + 1 + run_len(c.skip(q1 + 1), true);
            if q2 < c.len() && c[q2] == '}' {
                let q3 = q2 + 1 + blank_len(c.skip(q2 + 1));
                if q3 == c.len() || (q3 < c.len() && c[q3] == '\n') {
                    Some(q3)
                } else {
                    None
                }
            } else {
                None
            }
        } else {
            None
        }
    }
}

pub open spec fn first_flow(c: Seq<char>, key: Seq<char>, p: int) -> Option<(int, int)>
    decreases c.len() + 1 - p,
{
    if p < 0 || p > c.len() {
        None
    } else if at_line_start(c, p) && flow_end(c, key, p) is Some {
        Some((p, flow_end(c, key, p)->0))
    } else {
        first_flow(c, key, p + 1)
    }
}

/// Only blanks.
pub open spec fn all_blank(s: Seq<char>) -> bool {
    blank_len(s) == s.len()
}

/// A whole line `^([ \t]+enabled:[ \t]*)(true|false)\b([ \t]*)$`.
pub open spec fn enabled_line(l: Seq<char>) -> bool {
    let b = blank_len(l);
    let q = (b + 8) as int;
    let r = q + blank_len(l.skip(q));
    &&& b > 0
    &&& matches_at(l, "enabled:"@, b as int)
    &&& (matches_at(l, "true"@, r) && all_blank(l.skip(r + 4))) || (matches_at(l, "false"@, r)
        && all_blank(l.skip(r + 5)))
}

/// The bounds, counted as the lines' lengths plus one each, of the first
/// `enabled:` line of a block body from `pos`.
pub open spec fn enabled_scan(s: Seq<char>, pos: int, off: int) -> Option<(int, int)>
    decreases s.len() - pos,
{
    if pos < 0 || pos >= s.len() {
        None
    } else {
        proof {
            lemma_line_end(s, pos);
        }
        let l = line_at(s, pos);
        if trim(l).len() == 0 {
            enabled_scan(s, next_line(s, pos), off + l.len() + 1)
        } else if !(l[0] == ' ' || l[0] == '\t') {
            None
        } else if enabled_line(l) {
            Some((off, off + l.len()))
        } else {
            enabled_scan(s, next_line(s, pos), off + l.len() + 1)
        }
    }
}

/// The new `config.yaml` text that switches a platform on or off, or `None`
/// when nothing is written. `content` is `None` when the file does not exist.
pub open spec fn platform_edit(content: Option<Seq<char>>, platform: Seq<char>, enabled: bool) -> Option<
    Seq<char>,
> {
    let key = platform_key(platform);
    match content {
        None => if enabled {
            None
        } else {
            Some(key + ":\n  enabled: false\n"@)
        },
        Some(c) => match first_flow(c, key, 0) {
            Some(f) => Some(
                c.take(f.0) + interp0(key + ":\n  enabled: "@ + bool_text(enabled), c.subrange(f.0, f.1))
                    + c.skip(f.1),
            ),
            None => match block_body(c, key) {
                Some(s) => Some(
                    match enabled_scan(c.skip(s), 0, 0) {
                        Some(hit) => {
                            let ls = s + hit.0;
                            let le = s + hit.1;
                            if enabled {
                                let re = if le < c.len() && c[le] == '\n' {
                                    le + 1
                                } else {
                                    le
                                };
                                c.take(ls) + c.skip(re)
                            } else {
                                c.take(ls) + "  enabled: false"@ + c.skip(le)
                            }
                        },
                        None => if !enabled {
                            c.take(s) + "  enabled: false\n"@ + c.skip(s)
                        } else {
                            c
                        },
                    },
                ),
                None => if !enabled {
                    Some(
                        c + (if c.len() > 0 && c.last() == '\n' {
                            seq![]
                        } else {
                            seq!['\n']
                        }) + key + ":\n  enabled: false\n"@,
                    )
                } else {
                    None
                },
            },
        },
    }
}

fn flow_end_exec(c: &Vec<char>, k: &Vec<char>, p: usize) -> (r: Option<usize>)
    requires
        p <= c.len(),
        k@.len() > 0,
        k@.last() == ':',
    ensures
        match r {
            Some(e) => flow_end(c@, k@.drop_last(), p as int) == Some(e as int) && p <= e <= c.len(),
            None => flow_end(c@, k@.drop_last(), p as int) is None,
        },
{
    assert(k@.drop_last() + seq![':'] =~= k@);
    if !matches_at_exec(c, k, p) {
        return None;
    }
    let n = c.len();
    let a = p + k.len();
    let ta = slice(c, a, n);
    assert(ta@ =~= c@.skip(a as int));
    let q1 = a + blank_len_exec(&ta);
    if !(q1 < n && c[q1] == '{') {
        return None;
    }
    assert(c@.subrange(q1 + 1, n as int) =~= c@.skip(q1 + 1));
    let q2 = q1 + 1 + run_len_exec(c, q1 + 1, n, true);
    if !(q2 < n && c[q2] == '}') {
        return None;
    }
    let tb = slice(c, q2 + 1, n);
    assert(tb@ =~= c@.skip(q2 + 1));
    let q3 = q2 + 1 + blank_len_exec(&tb);
    if q3 == n || (q3 < n && c[q3] == '\n') {
        Some(q3)
    } else {
        None
    }
}

fn first_flow_exec(c: &Vec<char>, key: &Vec<char>) -> (r: Option<(usize, usize)>)
    ensures
        match r {
            Some(f) => first_flow(c@, key@, 0) == Some((f.0 as int, f.1 as int)) && f.0 <= f.1
                <= c.len(),
            None => first_flow(c@, key@, 0) is None,
        },
{
    let mut k = slice(key, 0, key.len());
    k.push(':');
    assert(k@.drop_last() =~= key@);
    let mut p: usize = 0;
    loop
        invariant
            p <= c.len(),
            k@.len() > 0,
            k@.last() == ':',
            k@.drop_last() == key@,
            first_flow(c@, key@, p as int) == first_flow(c@, key@, 0),
        decreases c.len() - p,
    {
        if p == 0 || c[p - 1] == '\n' {
            match flow_end_exec(c, &k, p) {
                Some(e) => {
                    return Some((p, e));
                },
                None => {},
            }
        }
        if p == c.len() {
            assert(first_flow(c@, key@, p + 1) is None);
            return None;
        }
        p += 1;
    }
}

fn all_blank_exec(l: &Vec<char>, from: usize) -> (b: bool)
    requires
        from <= l.len(),
    ensures
        b == all_blank(l@.skip(from as int)),
{
    let t = slice(l, from, l.len());
    assert(t@ =~= l@.skip(from as int));
    blank_len_exec(&t) == t.len()
}

fn enabled_line_exec(l: &Vec<char>) -> (b: bool)
    ensures
        b == enabled_line(l@),
{
    let b = blank_len_exec(l);
    let kw = chars_of("enabled:");
    proof {
        reveal_strlit("enabled:");
    }
    if b == 0 || !matches_at_exec(l, &kw, b) {
        return false;
    }
    let q = b + 8;
    let tail = slice(l, q, l.len());
    assert(tail@ =~= l@.skip(q as int));
    let r = q + blank_len_exec(&tail);
    let t = chars_of("true");
    let f = chars_of("false");
    proof {
        reveal_strlit("true");
        reveal_strlit("false");
    }
    (matches_at_exec(l, &t, r) && all_blank_exec(l, r + 4)) || (matches_at_exec(l, &f, r)
        && all_blank_exec(l, r + 5))
}

fn enabled_scan_exec(s: &Vec<char>) -> (r: Option<(usize, usize)>)
    ensures
        match r {
            Some(h) => enabled_scan(s@, 0, 0) == Some((h.0 as int, h.1 as int)) && h.0 <= h.1
                <= s.len(),
            None => enabled_scan(s@, 0, 0) is None,
        },
{
    let mut pos: usize = 0;
    let mut off: usize = 0;
    while pos < s.len()
        invariant
            off <= pos <= s.len(),
            enabled_scan(s@, pos as int, off as int) == enabled_scan(s@, 0, 0),
        decreases s.len() - pos,
    {
        proof {
            lemma_line_end(s@, pos as int);
        }
        let l = line_at_exec(s, pos);
        let nxt = next_line_exec(s, pos);
        let t = text::trim_vec(&l);
        if t.len() > 0 && !(l[0] == ' ' || l[0] == '\t') {
            return None;
        }
        if t.len() > 0 && enabled_line_exec(&l) {
            return Some((off, off + l.len()));
        }
        if nxt >= s.len() {
            assert(enabled_scan(s@, nxt as int, off + l@.len() + 1) is None);
            return None;
        }
        off = off + l.len() + 1;
        pos = nxt;
    }
    None
}

/// The `config.yaml` text that switches `platform` on or off, given the
/// current text (`None` when the file does not exist); `None` when the file
/// is left as it is.
pub fn set_platform_enabled(content: Option<&str>, platform: &str, enabled: bool) -> (r: Option<
    String,
>)
    ensures
        match r {
            Some(t) => platform_edit(crate::paths::opt_view(content), platform@, enabled) == Some(t@),
            None => platform_edit(crate::paths::opt_view(content), platform@, enabled) is None,
        },
{
    let key: Vec<char> = if text::str_eq(platform, "home_assistant") {
        chars_of("homeassistant")
    } else {
        chars_of(platform)
    };
    assert(key@ == platform_key(platform@));
    let c = match content {
        None => {
            if enabled {
                return None;
            }
            let mut r = slice(&key, 0, key.len());
            push_str(&mut r, ":\n  enabled: false\n");
            assert(r@ =~= key@ + ":\n  enabled: false\n"@);
            return Some(string_of(r.as_slice()));
        },
        Some(t) => chars_of(t),
    };
    match first_flow_exec(&c, &key) {
        Some((p, e)) => {
            let mut rep = slice(&key, 0, key.len());
            push_str(&mut rep, ":\n  enabled: ");
            push_str(&mut rep, if enabled { "true" } else { "false" });
            assert(rep@ =~= key@ + ":\n  enabled: "@ + bool_text(enabled));
            let whole = slice(&c, p, e);
            let mut r = slice(&c, 0, p);
            let x = interp0_exec(&rep, &whole);
            push_all(&mut r, &x);
            let tail = slice(&c, e, c.len());
            push_all(&mut r, &tail);
            assert(r@ =~= c@.take(p as int) + interp0(
                key@ + ":\n  enabled: "@ + bool_text(enabled),
                c@.subrange(p as int, e as int),
            ) + c@.skip(e as int));
            return Some(string_of(r.as_slice()));
        },
        None => {},
    }
    match block_body_exec(&c, &key) {
        Some(s) => {
            let rest = slice(&c, s, c.len());
            assert(rest@ =~= c@.skip(s as int));
            let out = match enabled_scan_exec(&rest) {
                Some((a, b)) => {
                    let ls = s + a;
                    let le = s + b;
                    if enabled {
                        let re = if le < c.len() && c[le] == '\n' {
                            le + 1
                        } else {
                            le
                        };
                        let mut r = slice(&c, 0, ls);
                        let tail = slice(&c, re, c.len());
                        push_all(&mut r, &tail);
                        r
                    } else {
                        let mut r = slice(&c, 0, ls);
                        push_str(&mut r, "  enabled: false");
                        let tail = slice(&c, le, c.len());
                        push_all(&mut r, &tail);
                        r
                    }
                },
                None => {
                    if !enabled {
                        let mut r = slice(&c, 0, s);
                        push_str(&mut r, "  enabled: false\n");
                        let tail = slice(&c, s, c.len());
                        push_all(&mut r, &tail);
                        r
                    } else {
                        slice(&c, 0, c.len())
                    }
                },
            };
            assert(Some(out@) == platform_edit(crate::paths::opt_view(content), platform@, enabled))
                by {
                assert(c@.subrange(0, c.len() as int) =~= c@);
            }
            Some(string_of(out.as_slice()))
        },
        None => {
            if enabled {
                return None;
            }
            let mut r = slice(&c, 0, c.len());
            if !(c.len() > 0 && c[c.len() - 1] == '\n') {
                r.push('\n');
            }
            push_all(&mut r, &key);
            push_str(&mut r, ":\n  enabled: false\n");
            assert(r@ =~= c@ + (if c@.len() > 0 && c@.last() == '\n' {
                seq![]
            } else {
                seq!['\n']
            }) + key@ + ":\n  enabled: false\n"@);
            Some(string_of(r.as_slice()))
        },
    }
}


// ───────────────────────── which platforms are on ─────────────────────────

/// The platforms, each with the `.env` variable that configures it and its
/// `config.yaml` block.
pub open spec fn supported_platforms() -> Seq<(Seq<char>, Seq<char>, Seq<char>)> {
    seq![
        ("telegram"@, "TELEGRAM_BOT_TOKEN"@, "telegram"@),
        ("discord"@, "DISCORD_BOT_TOKEN"@, "discord"@),
        ("slack"@, "SLACK_BOT_TOKEN"@, "slack"@),
        ("whatsapp"@, "WHATSAPP_ENABLED"@, "whatsapp"@),
        ("signal"@, "SIGNAL_HTTP_URL"@, "signal"@),
        ("matrix"@, "MATRIX_ACCESS_TOKEN"@, "matrix"@),
        ("mattermost"@, "MATTERMOST_TOKEN"@, "mattermost"@),
        ("home_assistant"@, "HASS_TOKEN"@, "homeassistant"@),
    ]
}

/// Whether `.env` configures a platform: WhatsApp by a true-ish flag,
/// Signal by its URL and account, Matrix by a token or a password, the
/// others by a non-blank token.
pub open spec fn env_enabled(env: Map<Seq<char>, Seq<char>>, platform: Seq<char>, var: Seq<char>) -> bool {
    if platform == "whatsapp"@ {
        let v = if env.contains_key(var) {
            text::lowercase(env[var])
        } else {
            seq![]
        };
        v == "true"@ || v == "1"@ || v == "yes"@ || v == "on"@
    } else if platform == "signal"@ {
        env.contains_key("SIGNAL_HTTP_URL"@) && env.contains_key("SIGNAL_ACCOUNT"@)
    } else if platform == "matrix"@ {
        env.contains_key("MATRIX_ACCESS_TOKEN"@) || env.contains_key("MATRIX_PASSWORD"@)
    } else {
        env.contains_key(var) && trim(env[var]).len() > 0
    }
}

/// A platform is on when `.env` configures it and `config.yaml` does not
/// switch it off.
pub open spec fn platform_on(env: Map<Seq<char>, Seq<char>>, content: Seq<char>, entry: (
    Seq<char>,
    Seq<char>,
    Seq<char>,
)) -> bool {
    let ov = if content.len() > 0 {
        platform_override(content, entry.2)
    } else {
        None
    };
    env_enabled(env, entry.0, entry.1) && ov != Some(false)
}

fn env_is(env: &StrMap, key: &str, words: &[&str]) -> (b: bool)
    ensures
        b == (env@.contains_key(key@) && exists|i: int|
            0 <= i < words@.len() && #[trigger] words@[i]@ == text::lowercase(env@[key@])),
{
    match env.get(key) {
        None => false,
        Some(v) => {
            let low = text::to_lowercase(v.as_str());
            let mut i: usize = 0;
            while i < words.len()
                invariant
                    i <= words@.len(),
                    low@ == text::lowercase(env@[key@]),
                    env@.contains_key(key@),
                    forall|k: int| 0 <= k < i ==> #[trigger] words@[k]@ != low@,
                decreases words@.len() - i,
            {
                if text::str_eq(words[i], low.as_str()) {
                    return true;
                }
                i += 1;
            }
            false
        },
    }
}

fn env_enabled_exec(env: &StrMap, platform: &str, var: &str) -> (b: bool)
    ensures
        b == env_enabled(env@, platform@, var@),
{
    if text::str_eq(platform, "whatsapp") {
        let words = ["true", "1", "yes", "on"];
        let r = env_is(env, var, &words);
        proof {
            reveal_strlit("");
            if env@.contains_key(var@) {
                let v = text::lowercase(env@[var@]);
                if v == "true"@ || v == "1"@ || v == "yes"@ || v == "on"@ {
                    if v == "true"@ { assert(words@[0]@ == v); }
                    if v == "1"@ { assert(words@[1]@ == v); }
                    if v == "yes"@ { assert(words@[2]@ == v); }
                    if v == "on"@ { assert(words@[3]@ == v); }
                }
            } else {
                assert(""@ =~= Seq::<char>::empty());
                reveal_strlit("true");
                reveal_strlit("1");
                reveal_strlit("yes");
                reveal_strlit("on");
            }
        }
        r
    } else if text::str_eq(platform, "signal") {
        env.contains_key("SIGNAL_HTTP_URL") && env.contains_key("SIGNAL_ACCOUNT")
    } else if text::str_eq(platform, "matrix") {
        env.contains_key("MATRIX_ACCESS_TOKEN") || env.contains_key("MATRIX_PASSWORD")
    } else {
        match env.get(var) {
            None => false,
            Some(v) => {
                let t = text::trim_str(v.as_str());
                t.as_str().unicode_len() > 0
            },
        }
    }
}

/// Whether each platform is on, in the order of [`supported_platforms`],
/// from the `.env` variables and the `config.yaml` text (empty when absent).
pub fn get_platform_enabled_all(env: &StrMap, content: &str) -> (r: Vec<(String, bool)>)
    ensures
        r@.len() == supported_platforms().len(),
        forall|i: int|
            0 <= i < r@.len() ==> #[trigger] r@[i].0@ == supported_platforms()[i].0 && r@[i].1
                == platform_on(env@, content@, supported_platforms()[i]),
{
    let table = [
        ("telegram", "TELEGRAM_BOT_TOKEN", "telegram"),
        ("discord", "DISCORD_BOT_TOKEN", "discord"),
        ("slack", "SLACK_BOT_TOKEN", "slack"),
        ("whatsapp", "WHATSAPP_ENABLED", "whatsapp"),
        ("signal", "SIGNAL_HTTP_URL", "signal"),
        ("matrix", "MATRIX_ACCESS_TOKEN", "matrix"),
        ("mattermost", "MATTERMOST_TOKEN", "mattermost"),
        ("home_assistant", "HASS_TOKEN", "homeassistant"),
    ];
    let ghost sp = supported_platforms();
    assert forall|i: int| 0 <= i < 8 implies #[trigger] table@[i].0@ == sp[i].0 && table@[i].1@
        == sp[i].1 && table@[i].2@ == sp[i].2 by {}
    let has_content = content.unicode_len() > 0;
    let mut r: Vec<(String, bool)> = Vec::new();
    let mut i: usize = 0;
    while i < 8
        invariant
            i <= 8,
            table@.len() == 8,
            sp == supported_platforms(),
            has_content == (content@.len() > 0),
            forall|k: int| 0 <= k < 8 ==> #[trigger] table@[k].0@ == sp[k].0 && table@[k].1@ == sp[k].1
                && table@[k].2@ == sp[k].2,
            r@.len() == i,
            forall|k: int| 0 <= k < i ==> #[trigger] r@[k].0@ == sp[k].0 && r@[k].1 == platform_on(
                env@,
                content@,
                sp[k],
            ),
        decreases 8 - i,
    {
        let (p, var, key) = table[i];
        let on = env_enabled_exec(env, p, var);
        let ov = if has_content {
            read_platform_override(content, key)
        } else {
            None
        };
        let off = match ov {
            Some(false) => true,
            _ => false,
        };
        r.push((text::concat2(p, ""), on && !off));
        proof {
            reveal_strlit("");
            assert(p@ + ""@ =~= p@);
        }
        i += 1;
    }
    r
}

/// The line break put after a text before a line is added to it.
pub open spec fn line_break_before(c: Seq<char>) -> Seq<char> {
    if c.len() > 0 && c.last() == '\n' {
        seq![]
    } else {
        seq!['\n']
    }
}

/// The `config.yaml` texts on which switching a platform off makes it read
/// as off. Left out are those where the edit misses the block that is read:
/// an empty flow block `key: {}` with a `key:` header before it; a text
/// whose last line `key:` has no line break, so that the line break put
/// after it makes it the header of an empty block, which is the one read;
/// and a block whose `enabled:` line comes after a line that is already read
/// as a flag, or after a line that loses a `\r` (which shifts the edit).
pub open spec fn platform_off_holds(c: Seq<char>, key: Seq<char>) -> bool {
    match first_flow(c, key, 0) {
        Some(f) => forall|j: int| 0 <= j < f.0 ==> !(#[trigger] at_line_start(c, j) && header_end(c, key, j) is Some),
        None => match block_body(c, key) {
            None => block_body(c + line_break_before(c), key) is None,
            Some(s) => match enabled_scan(c.skip(s), 0, 0) {
                None => true,
                Some(h) => plain_lines_before(c.skip(s), h.0),
            },
        },
    }
}

/// Switching a supported platform off makes it read as off, whatever `.env`
/// holds: with no file, and on every text that `platform_off_holds` keeps,
/// whether the edit adds a block, fills an empty flow block, puts an
/// `enabled: false` line into a block, or replaces its `enabled:` line.
pub proof fn law_platform_off_reads_back(env: Map<Seq<char>, Seq<char>>, content: Option<Seq<char>>, i: int)
    requires
        0 <= i < supported_platforms().len(),
        content matches Some(c) ==> platform_off_holds(c, supported_platforms()[i].2),
    ensures
        platform_edit(content, supported_platforms()[i].0, false) matches Some(c2) && !platform_on(
            env,
            c2,
            supported_platforms()[i],
        ),
{
    let e = supported_platforms()[i];
    assert(platform_key(e.0) == e.2) by {
        reveal_strlit("home_assistant");
        reveal_strlit("homeassistant");
        reveal_strlit("telegram");
        reveal_strlit("discord");
        reveal_strlit("slack");
        reveal_strlit("whatsapp");
        reveal_strlit("signal");
        reveal_strlit("matrix");
        reveal_strlit("mattermost");
    }
    assert(e.2.len() > 0 && forall|j: int| 0 <= j < e.2.len() ==> #[trigger] e.2[j] != '\n') by {
        reveal_strlit("homeassistant");
        reveal_strlit("telegram");
        reveal_strlit("discord");
        reveal_strlit("slack");
        reveal_strlit("whatsapp");
        reveal_strlit("signal");
        reveal_strlit("matrix");
        reveal_strlit("mattermost");
    }
    let tail = e.2 + ":\n  enabled: false\n"@;
    let c2 = platform_edit(content, e.0, false)->0;
    match content {
        Some(c) => {
            if first_flow(c, e.2, 0) is Some {
                assert(forall|j: int| 0 <= j < e.2.len() ==> #[trigger] e.2[j] != '$') by {
                    reveal_strlit("homeassistant");
                    reveal_strlit("telegram");
                    reveal_strlit("discord");
                    reveal_strlit("slack");
                    reveal_strlit("whatsapp");
                    reveal_strlit("signal");
                    reveal_strlit("matrix");
                    reveal_strlit("mattermost");
                }
                lemma_flow_off(c, e.2);
                let f = first_flow(c, e.2, 0)->0;
                assert(c2 == c.take(f.0) + (e.2 + ":\n  enabled: "@ + bool_text(false)) + c.skip(f.1));
                assert(c2.len() >= e.2.len());
            } else if block_body(c, e.2) is Some && enabled_scan(c.skip(block_body(c, e.2)->0), 0, 0) is Some {
                lemma_enabled_line_off(c, e.2);
                reveal_strlit("  enabled: false");
                let b = block_body(c, e.2)->0;
                let h = enabled_scan(c.skip(b), 0, 0)->0;
                assert(c2 == c.take(b + h.0) + "  enabled: false"@ + c.skip(b + h.1));
                assert(c2.len() >= 16);
            } else if block_body(c, e.2) is Some {
                lemma_block_off_inserted(c, e.2);
                let b = block_body(c, e.2)->0;
                reveal_strlit("  enabled: false\n");
                assert(c2 == c.take(b) + "  enabled: false\n"@ + c.skip(b));
                assert(c2.len() >= 17);
            } else {
                let c1 = c + line_break_before(c);
                if c.len() == 0 {
                    lemma_no_header_short(c1, e.2);
                }
                assert(c1.len() > 0 && c1.last() == '\n');
                lemma_block_off_after(c1, e.2);
                assert(c2 =~= c1 + tail);
            }
        },
        None => {
            lemma_no_header_short(Seq::<char>::empty(), e.2);
            lemma_block_off_after(Seq::<char>::empty(), e.2);
            assert(c2 =~= Seq::<char>::empty() + tail);
        },
    }
    assert(c2.len() > 0);
}

/// A text shorter than `key:` holds no header of that block.
proof fn lemma_no_header_short(c: Seq<char>, key: Seq<char>)
    requires
        c.len() <= key.len(),
    ensures
        block_body(c, key) is None,
{
    assert forall|j: int| 0 <= j <= c.len() implies !(#[trigger] at_line_start(c, j) && header_end(c, key, j)
        is Some) by {
        assert(!matches_at(c, key + seq![':'], j));
    }
    lemma_first_header_none_back(c, key, 0);
}

/// Nothing is found from `p` on when no position from `p` on holds a header.
proof fn lemma_first_header_none_back(c: Seq<char>, key: Seq<char>, p: int)
    requires
        0 <= p,
        forall|j: int| p <= j <= c.len() ==> !(#[trigger] at_line_start(c, j) && header_end(c, key, j) is Some),
    ensures
        first_header(c, key, p) is None,
    decreases c.len() + 1 - p,
{
    if p <= c.len() {
        lemma_first_header_none_back(c, key, p + 1);
    }
}

/// No header of the block from `p` on, when none is found.
proof fn lemma_first_header_none(c: Seq<char>, key: Seq<char>, p: int)
    requires
        0 <= p,
    ensures
        first_header(c, key, p) is None ==> forall|j: int|
            p <= j <= c.len() ==> !(#[trigger] at_line_start(c, j) && header_end(c, key, j) is Some),
    decreases c.len() + 1 - p,
{
    if p <= c.len() && !(at_line_start(c, p) && header_end(c, key, p) is Some) {
        lemma_first_header_none(c, key, p + 1);
    }
}

/// The first header from `q` is the one at `p` when there is none between.
proof fn lemma_first_header_at(c: Seq<char>, key: Seq<char>, q: int, p: int)
    requires
        0 <= q <= p <= c.len(),
        forall|j: int| q <= j < p ==> !(#[trigger] at_line_start(c, j) && header_end(c, key, j) is Some),
        at_line_start(c, p),
        header_end(c, key, p) is Some,
    ensures
        first_header(c, key, q) == header_end(c, key, p),
    decreases p - q,
{
    if q < p {
        assert(!(at_line_start(c, q) && header_end(c, key, q) is Some));
        lemma_first_header_at(c, key, q + 1, p);
    }
}

/// A header at `p` is read alike in two texts that agree up to a line
/// break at `n - 1` after `p`.
proof fn lemma_header_end_kept(c: Seq<char>, c2: Seq<char>, key: Seq<char>, n: int, p: int)
    requires
        0 <= p < n <= c.len(),
        n <= c2.len(),
        c[n - 1] == '\n',
        forall|j: int| 0 <= j < n ==> #[trigger] c2[j] == c[j],
        forall|j: int| 0 <= j < key.len() ==> #[trigger] key[j] != '\n',
    ensures
        header_end(c2, key, p) == header_end(c, key, p),
{
    let k = key + seq![':'];
    assert(c2[n - 1] == '\n');
    if matches_at(c2, k, p) {
        if p + k.len() > n {
            let x = n - 1 - p;
            assert(c2.subrange(p, p + k.len())[x] == c2[n - 1]);
            if x < key.len() {
                assert(k[x] == key[x]);
            }
            assert(false);
        }
        assert(c2.subrange(p, p + k.len()) =~= c.subrange(p, p + k.len()));
    }
    if matches_at(c, k, p) {
        if p + k.len() > n {
            let x = n - 1 - p;
            assert(c.subrange(p, p + k.len())[x] == c[n - 1]);
            if x < key.len() {
                assert(k[x] == key[x]);
            }
            assert(false);
        }
        assert(c2.subrange(p, p + k.len()) =~= c.subrange(p, p + k.len()));
        let q = p + k.len();
        assert(q < n) by {
            if q == n {
                assert(c.subrange(p, p + k.len())[k.len() - 1] == c[n - 1]);
            }
        }
        let sq = c.skip(q);
        crate::yaml::lemma_blank_len_props(sq);
        let bl = blank_len(sq) as int;
        assert(bl < n - q) by {
            if bl >= n - q {
                assert(sq[n - 1 - q] == c[n - 1]);
                assert(is_blank(sq[n - 1 - q]));
            }
        }
        assert forall|j: int| 0 <= j < bl implies is_blank(#[trigger] c2.skip(q)[j]) by {
            assert(c2.skip(q)[j] == sq[j]);
        }
        assert(c2.skip(q)[bl] == sq[bl]);
        crate::yaml::lemma_blank_len(c2.skip(q), bl);
        let r = q + bl;
        assert(c2[r] == c[r]);
        if r + 1 < n {
            assert(c2[r + 1] == c[r + 1]);
        }
    }
}

/// Where the first header from `p` is.
proof fn lemma_first_header_pos(c: Seq<char>, key: Seq<char>, p: int) -> (ph: int)
    requires
        0 <= p,
        first_header(c, key, p) is Some,
    ensures
        p <= ph <= c.len(),
        at_line_start(c, ph),
        header_end(c, key, ph) == first_header(c, key, p),
        forall|j: int| p <= j < ph ==> !(#[trigger] at_line_start(c, j) && header_end(c, key, j) is Some),
    decreases c.len() + 1 - p,
{
    if at_line_start(c, p) && header_end(c, key, p) is Some {
        p
    } else {
        lemma_first_header_pos(c, key, p + 1)
    }
}

/// The end of a header is just after a line break.
proof fn lemma_header_end_newline(c: Seq<char>, key: Seq<char>, p: int)
    requires
        header_end(c, key, p) is Some,
    ensures
        p < header_end(c, key, p)->0 <= c.len(),
        c[header_end(c, key, p)->0 - 1] == '\n',
{
}

/// A block `key:` whose only line sets `enabled: false`, after a text
/// without that block that is empty or ends with a line break, reads as off.
proof fn lemma_block_off_after(c: Seq<char>, key: Seq<char>)
    requires
        key.len() > 0,
        forall|j: int| 0 <= j < key.len() ==> #[trigger] key[j] != '\n',
        block_body(c, key) is None,
        c.len() == 0 || c.last() == '\n',
    ensures
        platform_override(c + (key + ":\n  enabled: false\n"@), key) == Some(false),
{
    reveal_strlit(":\n  enabled: false\n");
    let lit = ":\n  enabled: false\n"@;
    let c2 = c + (key + lit);
    let n = c.len() as int;
    let k = key + seq![':'];
    lemma_first_header_none(c, key, 0);
    assert forall|j: int| 0 <= j < n implies !(#[trigger] at_line_start(c2, j) && header_end(c2, key, j) is Some) by {
        lemma_header_end_kept(c, c2, key, n, j);
        if j > 0 {
            assert(c2[j - 1] == c[j - 1]);
        }
        assert(!(at_line_start(c, j) && header_end(c, key, j) is Some));
    }
    if n > 0 {
        assert(c2[n - 1] == c[n - 1]);
    }
    let q: int = n + k.len();
    assert(c2.subrange(n, q) =~= k);
    assert(c2[q] == '\n');
    assert(blank_len(c2.skip(q)) == 0);
    assert(header_end(c2, key, n) == Some(q + 1));
    lemma_first_header_at(c2, key, 0, n);
    let s = c2.skip(q + 1);
    reveal_strlit("  enabled: false\n");
    assert(s =~= "  enabled: false\n"@);
    reveal_strlit("  enabled: false");
    assert(s.subrange(0, 16) =~= "  enabled: false"@);
    lemma_off_line_reads_off(s);
}

/// Putting `  enabled: false` as the first line of an existing block makes
/// the block read as off.
proof fn lemma_block_off_inserted(c: Seq<char>, key: Seq<char>)
    requires
        key.len() > 0,
        forall|j: int| 0 <= j < key.len() ==> #[trigger] key[j] != '\n',
        block_body(c, key) is Some,
    ensures
        platform_override(
            c.take(block_body(c, key)->0) + "  enabled: false\n"@ + c.skip(block_body(c, key)->0),
            key,
        ) == Some(false),
{
    reveal_strlit("  enabled: false\n");
    let s = block_body(c, key)->0;
    let ph = lemma_first_header_pos(c, key, 0);
    lemma_header_end_newline(c, key, ph);
    let lit = "  enabled: false\n"@;
    let c2 = c.take(s) + lit + c.skip(s);
    assert forall|j: int| 0 <= j < s implies #[trigger] c2[j] == c[j] by {}
    assert forall|j: int| 0 <= j < ph implies !(#[trigger] at_line_start(c2, j) && header_end(c2, key, j)
        is Some) by {
        lemma_header_end_kept(c, c2, key, s, j);
        if j > 0 {
            assert(c2[j - 1] == c[j - 1]);
        }
        assert(!(at_line_start(c, j) && header_end(c, key, j) is Some));
    }
    lemma_header_end_kept(c, c2, key, s, ph);
    if ph > 0 {
        assert(c2[ph - 1] == c[ph - 1]);
    }
    lemma_first_header_at(c2, key, 0, ph);
    let b = c2.skip(s);
    reveal_strlit("  enabled: false");
    assert(b.subrange(0, 16) =~= "  enabled: false"@);
    assert(b[16] == '\n');
    lemma_off_line_reads_off(b);
}

/// A replacement without `$` is taken as it is.
proof fn lemma_interp0_plain(rep: Seq<char>, whole: Seq<char>)
    requires
        forall|i: int| 0 <= i < rep.len() ==> #[trigger] rep[i] != '$',
    ensures
        interp0(rep, whole) == rep,
    decreases rep.len(),
{
    if rep.len() > 0 {
        assert forall|i: int| 0 <= i < rep.drop_first().len() implies #[trigger] rep.drop_first()[i] != '$' by {
            assert(rep.drop_first()[i] == rep[i + 1]);
        }
        lemma_interp0_plain(rep.drop_first(), whole);
        assert(seq![rep[0]] + rep.drop_first() =~= rep);
    }
}

/// Where the first empty flow block from `p` is.
proof fn lemma_first_flow_pos(c: Seq<char>, key: Seq<char>, p: int) -> (f0: int)
    requires
        0 <= p,
        first_flow(c, key, p) is Some,
    ensures
        p <= f0 <= c.len(),
        at_line_start(c, f0),
        flow_end(c, key, f0) is Some,
        first_flow(c, key, p) == Some((f0, flow_end(c, key, f0)->0)),
    decreases c.len() + 1 - p,
{
    if at_line_start(c, p) && flow_end(c, key, p) is Some {
        p
    } else {
        lemma_first_flow_pos(c, key, p + 1)
    }
}

/// Writing `key:` and `  enabled: false` in place of the first empty flow
/// block `key: {}`, with no header of the block before it, makes the block
/// read as off.
proof fn lemma_flow_off(c: Seq<char>, key: Seq<char>)
    requires
        key.len() > 0,
        forall|j: int| 0 <= j < key.len() ==> #[trigger] key[j] != '\n' && key[j] != '$',
        first_flow(c, key, 0) matches Some(f) && forall|j: int|
            0 <= j < f.0 ==> !(#[trigger] at_line_start(c, j) && header_end(c, key, j) is Some),
    ensures
        ({
            let f = first_flow(c, key, 0)->0;
            platform_override(
                c.take(f.0) + interp0(key + ":\n  enabled: "@ + bool_text(false), c.subrange(f.0, f.1)) + c.skip(
                    f.1,
                ),
                key,
            ) == Some(false) && interp0(key + ":\n  enabled: "@ + bool_text(false), c.subrange(f.0, f.1)) == key
                + ":\n  enabled: "@ + bool_text(false)
        }),
{
    reveal_strlit(":\n  enabled: ");
    reveal_strlit("false");
    reveal_strlit("  enabled: false");
    let f0 = lemma_first_flow_pos(c, key, 0);
    let f1 = flow_end(c, key, f0)->0;
    assert(f0 <= f1 <= c.len());
    assert(f1 == c.len() || c[f1] == '\n');
    let rep = key + ":\n  enabled: "@ + bool_text(false);
    assert forall|i: int| 0 <= i < rep.len() implies #[trigger] rep[i] != '$' by {
        if i < key.len() {
            assert(rep[i] == key[i]);
        }
    }
    lemma_interp0_plain(rep, c.subrange(f0, f1));
    let c2 = c.take(f0) + rep + c.skip(f1);
    let k = key + seq![':'];
    assert forall|j: int| 0 <= j < f0 implies #[trigger] c2[j] == c[j] by {}
    assert forall|j: int| 0 <= j < f0 implies !(#[trigger] at_line_start(c2, j) && header_end(c2, key, j)
        is Some) by {
        lemma_header_end_kept(c, c2, key, f0, j);
        if j > 0 {
            assert(c2[j - 1] == c[j - 1]);
        }
        assert(!(at_line_start(c, j) && header_end(c, key, j) is Some));
    }
    if f0 > 0 {
        assert(c2[f0 - 1] == c[f0 - 1]);
    }
    let q: int = f0 + k.len();
    assert(c2.subrange(f0, q) =~= k);
    assert(c2[q] == '\n');
    assert(blank_len(c2.skip(q)) == 0);
    assert(header_end(c2, key, f0) == Some(q + 1));
    lemma_first_header_at(c2, key, 0, f0);
    let b = c2.skip(q + 1);
    assert(b =~= "  enabled: false"@ + c.skip(f1));
    assert(b.subrange(0, 16) =~= "  enabled: false"@);
    if f1 < c.len() {
        assert(b[16] == c[f1]);
    }
    lemma_off_line_reads_off(b);
}

/// Replacing the first `enabled:` line of an existing block by
/// `  enabled: false` makes the block read as off, when no line of the block
/// before it is read as a flag or loses a `\r`.
proof fn lemma_enabled_line_off(c: Seq<char>, key: Seq<char>)
    requires
        key.len() > 0,
        forall|j: int| 0 <= j < key.len() ==> #[trigger] key[j] != '\n',
        block_body(c, key) matches Some(s) && enabled_scan(c.skip(s), 0, 0) matches Some(h) && plain_lines_before(
            c.skip(s),
            h.0,
        ),
    ensures
        ({
            let s = block_body(c, key)->0;
            let h = enabled_scan(c.skip(s), 0, 0)->0;
            platform_override(c.take(s + h.0) + "  enabled: false"@ + c.skip(s + h.1), key) == Some(false)
        }),
{
    reveal_strlit("  enabled: false");
    let s = block_body(c, key)->0;
    let b = c.skip(s);
    let h = enabled_scan(b, 0, 0)->0;
    lemma_enabled_scan_inside(b, 0, 0);
    let ph = lemma_first_header_pos(c, key, 0);
    lemma_header_end_newline(c, key, ph);
    let c2 = c.take(s + h.0) + "  enabled: false"@ + c.skip(s + h.1);
    assert forall|j: int| 0 <= j < s implies #[trigger] c2[j] == c[j] by {}
    assert forall|j: int| 0 <= j < ph implies !(#[trigger] at_line_start(c2, j) && header_end(c2, key, j)
        is Some) by {
        lemma_header_end_kept(c, c2, key, s, j);
        if j > 0 {
            assert(c2[j - 1] == c[j - 1]);
        }
        assert(!(at_line_start(c, j) && header_end(c, key, j) is Some));
    }
    lemma_header_end_kept(c, c2, key, s, ph);
    if ph > 0 {
        assert(c2[ph - 1] == c[ph - 1]);
    }
    lemma_first_header_at(c2, key, 0, ph);
    assert(c2.skip(s) =~= b.take(h.0) + "  enabled: false"@ + b.skip(h.1));
    lemma_enabled_line_replaced(b, 0);
}

/// A block body whose first line is `  enabled: false` reads as off.
proof fn lemma_off_line_reads_off(s: Seq<char>)
    requires
        s.len() >= 16,
        s.subrange(0, 16) == "  enabled: false"@,
        s.len() == 16 || s[16] == '\n',
    ensures
        override_scan(s, 0) == Some(false),
{
    lemma_off_line_at(s, 0);
}

/// The line `  enabled: false` sets the flag to false.
proof fn lemma_off_flag()
    ensures
        trim("  enabled: false"@).len() > 0,
        "  enabled: false"@[0] == ' ',
        enabled_flag("  enabled: false"@) == Some(false),
{
    reveal_strlit("  enabled: false");
    reveal_strlit("enabled:");
    reveal_strlit("true");
    reveal_strlit("false");
    let l = "  enabled: false"@;
    assert(trim(l).len() > 0) by {
        assert(!text::is_ws(l[2]));
        text::lemma_trim_start_is_suffix(l);
        text::lemma_trim_start_char(l, 2);
        text::lemma_trim_end_is_prefix(l.skip(2));
        if trim(l).len() == 0 {
            assert(text::is_ws(l.skip(2)[0]));
        }
    }
    crate::yaml::lemma_blank_len(l, 2);
    assert(l.subrange(2, 10) =~= "enabled:"@);
    crate::yaml::lemma_blank_len(l.skip(10), 1);
    assert(l.subrange(11, 16) =~= "false"@);
    assert(!matches_at(l, "true"@, 11)) by {
        assert(l.subrange(11, 15)[0] == 'f');
    }
}

/// A line `  enabled: false`, ended by a line break (`\n` or `\r\n`) or by
/// the end of the text, reads as off.
proof fn lemma_off_line_at(s: Seq<char>, p: int)
    requires
        0 <= p,
        p + 16 <= s.len(),
        s.subrange(p, p + 16) == "  enabled: false"@,
        p + 16 == s.len() || s[p + 16] == '\n' || (p + 17 < s.len() && s[p + 16] == '\r' && s[p + 17]
            == '\n'),
    ensures
        override_scan(s, p) == Some(false),
{
    reveal_strlit("  enabled: false");
    let l = "  enabled: false"@;
    lemma_off_flag();
    assert forall|j: int| 0 <= j < 16 implies #[trigger] s[p + j] == l[j] by {
        assert(s.subrange(p, p + 16)[j] == s[p + j]);
    }
    assert forall|j: int| p <= j < p + 16 implies s[j] != '\n' by {
        assert(s[p + (j - p)] == l[j - p]);
    }
    let le: int = if p + 16 < s.len() && s[p + 16] == '\r' {
        p + 17
    } else {
        p + 16
    };
    assert forall|j: int| p <= j < le implies s[j] != '\n' by {}
    lemma_line_end_to(s, p, le);
    if le < s.len() {
        if le == p + 17 {
            assert(s.subrange(p, le).drop_last() =~= l);
        } else {
            assert(s.subrange(p, le) =~= l);
            assert(l.last() == 'e');
        }
    } else {
        assert(s.subrange(p, le) =~= l);
    }
    assert(line_at(s, p) == l);
}

/// `line_end` when the next line break (or the end) is at `e`.
proof fn lemma_line_end_to(s: Seq<char>, p: int, e: int)
    requires
        0 <= p <= e <= s.len(),
        forall|j: int| p <= j < e ==> s[j] != '\n',
        e == s.len() || s[e] == '\n',
    ensures
        line_end(s, p) == e,
    decreases e - p,
{
    if p < e {
        lemma_line_end_to(s, p + 1, e);
    }
}

/// Two texts that agree before `n` have the same line at `p` when it ends
/// before `n`.
proof fn lemma_same_line_at(s: Seq<char>, s2: Seq<char>, p: int, n: int)
    requires
        0 <= p,
        n <= s.len(),
        n <= s2.len(),
        forall|j: int| 0 <= j < n ==> #[trigger] s2[j] == s[j],
        line_end(s, p) < n,
    ensures
        line_end(s2, p) == line_end(s, p),
        next_line(s2, p) == next_line(s, p),
        line_at(s2, p) == line_at(s, p),
{
    lemma_line_end(s, p);
    let le = line_end(s, p);
    assert forall|j: int| p <= j < le implies s2[j] != '\n' by {
        assert(s2[j] == s[j]);
    }
    assert(s2[le] == s[le]);
    lemma_line_end_to(s2, p, le);
    assert(s2.subrange(p, le) =~= s.subrange(p, le));
}

/// A line at `p` loses no `\r` to `str::lines`.
pub open spec fn whole_line(b: Seq<char>, p: int) -> bool {
    line_at(b, p).len() == line_end(b, p) - p
}

/// The lines of a block body before its first `enabled:` line that are
/// neither read as an `enabled:` flag nor lose a `\r`.
pub open spec fn plain_lines_before(b: Seq<char>, o: int) -> bool {
    forall|p: int| 0 <= p < o && #[trigger] at_line_start(b, p) ==> enabled_flag(line_at(b, p)) is None && whole_line(b, p)
}

/// Replacing the first `enabled:` line of a block body by `  enabled: false`
/// makes the body read as off, when no line before it is read as a flag or
/// loses a `\r`.
proof fn lemma_enabled_line_replaced(b: Seq<char>, pos: int)
    requires
        0 <= pos <= b.len(),
        at_line_start(b, pos),
        enabled_scan(b, pos, pos) is Some,
        plain_lines_before(b, (enabled_scan(b, pos, pos)->0).0),
    ensures
        ({
            let h = enabled_scan(b, pos, pos)->0;
            override_scan(b.take(h.0) + "  enabled: false"@ + b.skip(h.1), pos) == Some(false)
        }),
    decreases b.len() - pos,
{
    reveal_strlit("  enabled: false");
    let h = enabled_scan(b, pos, pos)->0;
    lemma_line_end(b, pos);
    let le = line_end(b, pos);
    let l = line_at(b, pos);
    let nl = next_line(b, pos);
    let b2 = b.take(h.0) + "  enabled: false"@ + b.skip(h.1);
    lemma_enabled_scan_inside(b, pos, pos);
    if trim(l).len() == 0 || !enabled_line(l) {
        // the scan moves on to the next line
        assert(le < b.len()) by {
            if le == b.len() {
                assert(enabled_scan(b, nl, pos + l.len() + 1) is None);
            }
        }
        lemma_enabled_scan_from(b, nl, pos + l.len() + 1);
        assert(pos < h.0);
        assert(enabled_flag(l) is None && whole_line(b, pos));
        assert(pos + l.len() + 1 == nl);
        assert forall|j: int| 0 <= j < h.0 implies #[trigger] b2[j] == b[j] by {}
        lemma_same_line_at(b, b2, pos, h.0);
        assert(at_line_start(b, nl));
        assert forall|p: int| 0 <= p < h.0 && #[trigger] at_line_start(b, p) implies enabled_flag(line_at(b, p))
            is None && whole_line(b, p) by {}
        lemma_enabled_line_replaced(b, nl);
        if trim(l).len() > 0 {
            assert(l[0] == ' ' || l[0] == '\t');
        }
    } else {
        // the `enabled:` line itself
        assert(h == (pos, pos + l.len()));
        let e = pos + l.len();
        assert(e <= le);
        assert(b2.subrange(pos, pos + 16) =~= "  enabled: false"@);
        if e < b.len() {
            if e == le {
                assert(b2[pos + 16] == b[le]);
            } else {
                // the line lost its final `\r`
                assert(le == e + 1);
                assert(b.subrange(pos, le).last() == '\r');
                assert(b[e] == '\r');
                assert(b2[pos + 16] == b[e]);
                assert(b2[pos + 17] == b[le]);
            }
        }
        lemma_off_line_at(b2, pos);
    }
}

/// The bounds the scan gives lie inside the body while the count of
/// characters does not run ahead of the position.
proof fn lemma_enabled_scan_inside(b: Seq<char>, pos: int, off: int)
    requires
        0 <= off <= pos,
    ensures
        enabled_scan(b, pos, off) matches Some(h) ==> 0 <= h.0 <= h.1 <= b.len(),
    decreases b.len() - pos,
{
    if 0 <= pos < b.len() {
        lemma_line_end(b, pos);
        let le = line_end(b, pos);
        let l = line_at(b, pos);
        assert(l.len() <= le - pos);
        if le < b.len() {
            lemma_enabled_scan_inside(b, next_line(b, pos), off + l.len() + 1);
        }
    }
}

/// Where the scan for the `enabled:` line goes on from.
proof fn lemma_enabled_scan_from(b: Seq<char>, pos: int, off: int)
    ensures
        enabled_scan(b, pos, off) matches Some(h) ==> off <= h.0,
    decreases b.len() - pos,
{
    if 0 <= pos < b.len() {
        lemma_line_end(b, pos);
        let l = line_at(b, pos);
        lemma_enabled_scan_from(b, next_line(b, pos), off + l.len() + 1);
    }
}

} // verus!
