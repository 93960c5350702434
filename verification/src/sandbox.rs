//! The terminal backend the agent runs commands in: read from and written
//! to the `terminal_backend` section of `config.yaml`.
use vstd::prelude::*;
use crate::platforms::{cap_run, is_word, is_word_exec, lemma_cap_run, ref_digits, zero_ref, zero_ref_exec};
use crate::sse::is_re_space;
use crate::text::{chars_of, find_sub, lines, lines_exec, push_all, starts_with, string_of, trim, trim_end, trim_matches, trim_start};
use crate::text;

verus! {

// ───────────────────────── reading ─────────────────────────

/// The value of a `type:` line, without quotes.
pub open spec fn type_value(l: Seq<char>) -> Seq<char> {
    trim_matches(trim_matches(trim(trim_start(l).skip(5)), '"'), '\'')
}

/// The backend from line `i` on, inside the section or not: the first
/// `type:` line of the section, `local` when the section ends first or
/// there is none.
pub open spec fn backend_from(ls: Seq<Seq<char>>, i: int, in_section: bool) -> Seq<char>
    decreases ls.len() - i,
{
    if i < 0 || i >= ls.len() {
        "local"@
    } else {
        let l = ls[i];
        if starts_with(trim_start(l), "terminal_backend:"@) {
            backend_from(ls, i + 1, true)
        } else if in_section {
            if !starts_with(l, " "@) && !starts_with(l, "\t"@) && trim(l).len() > 0 {
                "local"@
            } else if starts_with(trim_start(l), "type:"@) {
                type_value(l)
            } else {
                backend_from(ls, i + 1, in_section)
            }
        } else {
            backend_from(ls, i + 1, in_section)
        }
    }
}

/// The configured backend; `local` without a configuration.
pub fn get_terminal_backend(config: Option<&str>) -> (r: String)
    ensures
        r@ == match config {
            Some(c) => backend_from(lines(c@), 0, false),
            None => "local"@,
        },
{
    let content = match config {
        Some(c) => c,
        None => return text::owned("local"),
    };
    let c = chars_of(content);
    let ls = lines_exec(&c);
    let ghost lv = lines(c@);
    let key = chars_of("terminal_backend:");
    let ty = chars_of("type:");
    proof { reveal_strlit("type:"); }
    assert(ty@.len() == 5);
    let sp = chars_of(" ");
    let tab = chars_of("\t");
    let mut in_section = false;
    let mut i: usize = 0;
    while i < ls.len()
        invariant
            i <= ls.len(),
            ls@.len() == lv.len(),
            lv == lines(c@),
            c@ == content@,
            config == Some(content),
            forall|k: int| 0 <= k < ls@.len() ==> #[trigger] ls@[k]@ == lv[k],
            key@ == "terminal_backend:"@,
            ty@ == "type:"@,
            ty@.len() == 5,
            sp@ == " "@,
            tab@ == "\t"@,
            backend_from(lv, 0, false) == backend_from(lv, i as int, in_section),
        decreases ls.len() - i,
    {
        let l = &ls[i];
        assert(l@ == lv[i as int]);
        let ts = trim_start_exec(l);
        if text::starts_with_exec(&ts, &key) {
            in_section = true;
        } else if in_section {
            let t = text::trim_vec(l);
            if !text::starts_with_exec(l, &sp) && !text::starts_with_exec(l, &tab) && t.len() > 0 {
                return text::owned("local");
            }
            if text::starts_with_exec(&ts, &ty) {
                let rest = text::slice(&ts, 5, ts.len());
                assert(rest@ =~= ts@.skip(5));
                let v = text::trim_vec(&rest);
                let a = text::trim_matches_exec(&v, '"');
                let b = text::trim_matches_exec(&a, '\'');
                return string_of(b.as_slice());
            }
        }
        i += 1;
    }
    text::owned("local")
}

fn trim_start_exec(s: &Vec<char>) -> (r: Vec<char>)
    ensures
        r@ == trim_start(s@),
{
    let mut a: usize = 0;
    while a < s.len() && text::is_ws_char(s[a])
        invariant
            a <= s.len(),
            forall|j: int| 0 <= j < a ==> crate::text::is_ws(#[trigger] s@[j]),
        decreases s.len() - a,
    {
        a += 1;
    }
    proof {
        text::lemma_trim_start_char(s@, a as int);
    }
    let r = text::slice(s, a, s.len());
    assert(r@ =~= s@.skip(a as int));
    r
}

// ───────────────────────── writing ─────────────────────────

/// A group reference that parses as the number 1.
pub open spec fn one_ref(name: Seq<char>) -> bool {
    let d = ref_digits(name);
    d.len() > 0 && d.last() == '1' && forall|i: int| 0 <= i < d.len() - 1 ==> #[trigger] d[i] == '0'
}

pub open spec fn group_text(name: Seq<char>, whole: Seq<char>, g1: Seq<char>) -> Seq<char> {
    if zero_ref(name) {
        whole
    } else if one_ref(name) {
        g1
    } else {
        seq![]
    }
}

/// A replacement string with its `$` references expanded, for a pattern
/// with one capture group: `$$` is a `$`, group 0 is the whole match, group
/// 1 is `g1`, any other reference is empty, and a `$` that starts no
/// reference stays.
pub open spec fn interp1(rep: Seq<char>, whole: Seq<char>, g1: Seq<char>) -> Seq<char>
    decreases rep.len(),
{
    if rep.len() == 0 {
        seq![]
    } else if rep[0] != '$' {
        seq![rep[0]] + interp1(rep.drop_first(), whole, g1)
    } else if rep.len() >= 2 && rep[1] == '$' {
        seq!['$'] + interp1(rep.skip(2), whole, g1)
    } else if rep.len() >= 2 && rep[1] == '{' {
        match find_sub(rep.skip(2), seq!['}']) {
            Some(j) => if 0 <= j && 3 + j <= rep.len() {
                group_text(rep.subrange(2, 2 + j), whole, g1) + interp1(rep.skip(3 + j), whole, g1)
            } else {
                seq![]
            },
            None => seq!['$'] + interp1(rep.drop_first(), whole, g1),
        }
    } else {
        let n = cap_run(rep.drop_first()) as int;
        if n == 0 {
            seq!['$'] + interp1(rep.drop_first(), whole, g1)
        } else if 1 + n <= rep.len() {
            group_text(rep.subrange(1, 1 + n), whole, g1) + interp1(rep.skip(1 + n), whole, g1)
        } else {
            seq![]
        }
    }
}

fn one_ref_exec(rep: &Vec<char>, lo: usize, hi: usize) -> (b: bool)
    requires
        lo <= hi <= rep.len(),
    ensures
        b == one_ref(rep@.subrange(lo as int, hi as int)),
{
    let start = if lo < hi && rep[lo] == '+' { lo + 1 } else { lo };
    let ghost d = rep@.subrange(start as int, hi as int);
    assert(d =~= ref_digits(rep@.subrange(lo as int, hi as int)));
    if start >= hi {
        return false;
    }
    if rep[hi - 1] != '1' {
        assert(d.last() == rep@[hi - 1]);
        return false;
    }
    assert(d.last() == rep@[hi - 1]);
    let mut i = start;
    while i < hi - 1
        invariant
            start <= i <= hi - 1,
            hi <= rep.len(),
            d == rep@.subrange(start as int, hi as int),
            d == ref_digits(rep@.subrange(lo as int, hi as int)),
            forall|k: int| 0 <= k < i - start ==> #[trigger] d[k] == '0',
        decreases hi - 1 - i,
    {
        if rep[i] != '0' {
            assert(d[i - start] != '0');
            return false;
        }
        i += 1;
    }
    true
}

fn push_group(out: &mut Vec<char>, rep: &Vec<char>, lo: usize, hi: usize, whole: &Vec<char>, g1: &Vec<char>)
    requires
        lo <= hi <= rep.len(),
    ensures
        final(out)@ == old(out)@ + group_text(rep@.subrange(lo as int, hi as int), whole@, g1@),
{
    if zero_ref_exec(rep, lo, hi) {
        push_all(out, whole);
    } else if one_ref_exec(rep, lo, hi) {
        push_all(out, g1);
    } else {
        assert(old(out)@ + seq![] =~= old(out)@);
    }
}

fn interp1_exec(rep: &Vec<char>, whole: &Vec<char>, g1: &Vec<char>) -> (r: Vec<char>)
    ensures
        r@ == interp1(rep@, whole@, g1@),
{
    let mut out: Vec<char> = Vec::new();
    let mut i: usize = 0;
    let close: Vec<char> = vec!['}'];
    assert(close@ =~= seq!['}']);
    assert(rep@.skip(0) =~= rep@);
    while i < rep.len()
        invariant
            i <= rep.len(),
            close@ == seq!['}'],
            interp1(rep@, whole@, g1@) == out@ + interp1(rep@.skip(i as int), whole@, g1@),
        decreases rep.len() - i,
    {
        let ghost t = rep@.skip(i as int);
        if rep[i] != '$' {
            out.push(rep[i]);
            assert(t.drop_first() =~= rep@.skip(i + 1));
            i += 1;
        } else if i + 1 < rep.len() && rep[i + 1] == '$' {
            out.push('$');
            assert(t.skip(2) =~= rep@.skip(i + 2));
            i += 2;
        } else if i + 1 < rep.len() && rep[i + 1] == '{' {
            assert(t.skip(2) =~= rep@.skip(i + 2));
            match text::find_from(rep, &close, i + 2) {
                Some(j) => {
                    proof {
                        text::lemma_find_sub(rep@.skip(i + 2), seq!['}']);
                        assert(t.subrange(2, 2 + (j - i - 2)) =~= rep@.subrange(i + 2, j as int));
                        assert(t.skip(3 + (j - i - 2)) =~= rep@.skip(j + 1));
                    }
                    push_group(&mut out, rep, i + 2, j, whole, g1);
                    i = j + 1;
                },
                None => {
                    out.push('$');
                    assert(t.drop_first() =~= rep@.skip(i + 1));
                    i += 1;
                },
            }
        } else {
            let mut e = i + 1;
            while e < rep.len() && is_word_exec(rep[e])
                invariant
                    i + 1 <= e <= rep.len(),
                    forall|k: int| i + 1 <= k < e ==> is_word(#[trigger] rep@[k]),
                decreases rep.len() - e,
            {
                e += 1;
            }
            proof {
                let u = t.drop_first();
                assert forall|k: int| 0 <= k < e - i - 1 implies is_word(#[trigger] u[k]) by {
                    assert(u[k] == rep@[i + 1 + k]);
                }
                if e < rep.len() {
                    assert(u[e - i - 1] == rep@[e as int]);
                }
                lemma_cap_run(u, e - i - 1);
            }
            if e == i + 1 {
                out.push('$');
                assert(t.drop_first() =~= rep@.skip(i + 1));
                i += 1;
            } else {
                assert(t.subrange(1, 1 + (e - i - 1)) =~= rep@.subrange(i + 1, e as int));
                assert(t.skip(1 + (e - i - 1)) =~= rep@.skip(e as int));
                push_group(&mut out, rep, i + 1, e, whole, g1);
                i = e;
            }
        }
    }
    assert(rep@.skip(rep.len() as int).len() == 0);
    out
}

/// Where the lazy match of `terminal_backend:.*?(\n\S|\z)` that scans from
/// `q` ends: after the first newline followed by a non-space, or at the end.
/// Also the text of the group.
pub open spec fn section_end(c: Seq<char>, q: int) -> (int, Seq<char>)
    decreases c.len() - q,
{
    if q >= c.len() {
        (c.len() as int, seq![])
    } else if c[q] == '\n' && q + 1 < c.len() && !is_re_space(c[q + 1]) {
        (q + 2, c.subrange(q, q + 2))
    } else {
        section_end(c, q + 1)
    }
}

/// The new section text.
pub open spec fn backend_section(backend: Seq<char>) -> Seq<char> {
    "terminal_backend:\n  type: "@ + backend + "\n"@
}

/// The configuration with the backend set: the text from the first
/// `terminal_backend:` to the end of its section (the match of
/// `(?s)terminal_backend:.*?(\n\S|\z)`) is replaced by the new section, `$`
/// references in it expanded; without the section it is appended.
pub open spec fn backend_edit(content: Seq<char>, backend: Seq<char>) -> Seq<char> {
    let sec = backend_section(backend);
    match find_sub(content, "terminal_backend:"@) {
        Some(p) => {
            let (e, g1) = section_end(content, p + 17);
            content.take(p) + interp1(trim_end(sec) + "\n"@, content.subrange(p, e), g1) + content.skip(e)
        },
        None => trim_end(content) + "\n"@ + sec,
    }
}

fn trim_end_exec(s: &Vec<char>) -> (r: Vec<char>)
    ensures
        r@ == trim_end(s@),
{
    let mut n = s.len();
    while n > 0 && text::is_ws_char(s[n - 1])
        invariant
            n <= s.len(),
            forall|j: int| n <= j < s.len() ==> crate::text::is_ws(#[trigger] s@[j]),
        decreases n,
    {
        n -= 1;
    }
    proof {
        text::lemma_trim_end_char(s@, n as int);
    }
    text::slice(s, 0, n)
}

fn find_section_end(c: &Vec<char>, from: usize) -> (r: (usize, Vec<char>))
    requires
        from <= c.len(),
    ensures
        from <= r.0 <= c.len(),
        section_end(c@, from as int) == (r.0 as int, r.1@),
{
    let n = c.len();
    let mut q = from;
    while q < n
        invariant
            from <= q <= n,
            n == c.len(),
            section_end(c@, from as int) == section_end(c@, q as int),
        decreases n - q,
    {
        if c[q] == '\n' && q + 1 < n && !crate::sse::is_re_space_exec(c[q + 1]) {
            let g = text::slice(c, q, q + 2);
            return (q + 2, g);
        }
        q += 1;
    }
    (n, Vec::new())
}

/// Sets the terminal backend in the text of `config.yaml`.
pub fn set_terminal_backend(content: &str, backend: &str) -> (r: String)
    ensures
        r@ == backend_edit(content@, backend@),
{
    let c = chars_of(content);
    let mut sec = chars_of("terminal_backend:\n  type: ");
    text::push_str(&mut sec, backend);
    sec.push('\n');
    proof { reveal_strlit("\n"); }
    assert(sec@ =~= backend_section(backend@));
    let key = chars_of("terminal_backend:");
    assert(c@.skip(0) =~= c@);
    proof { text::lemma_find_sub(c@, key@); }
    match text::find_from(&c, &key, 0) {
        Some(p) => {
            proof { reveal_strlit("terminal_backend:"); }
            assert(key@.len() == 17);
            assert(text::matches_at(c@, key@, p as int));
            let (e, g1) = find_section_end(&c, p + 17);
            assert(section_end(c@, p + 17) == (e as int, g1@));
            let whole = text::slice(&c, p, e);
            let mut rep = trim_end_exec(&sec);
            rep.push('\n');
            assert(rep@ =~= trim_end(sec@) + "\n"@);
            assert(whole@ =~= c@.subrange(p as int, e as int));
            let body = interp1_exec(&rep, &whole, &g1);
            let mut out = text::slice(&c, 0, p);
            assert(out@ =~= c@.take(p as int));
            push_all(&mut out, &body);
            let tail = text::slice(&c, e, c.len());
            assert(tail@ =~= c@.skip(e as int));
            push_all(&mut out, &tail);
            assert(out@ =~= backend_edit(content@, backend@));
            string_of(out.as_slice())
        },
        None => {
            let mut out = trim_end_exec(&c);
            out.push('\n');
            push_all(&mut out, &sec);
            assert(out@ =~= backend_edit(content@, backend@));
            string_of(out.as_slice())
        },
    }
}

} // verus!
