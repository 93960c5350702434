//! Line-oriented reading of `config.yaml`: a value is found by walking the
//! indentation of its dotted path, one `key: value` line per segment, as the
//! desktop reads it without a YAML parser. Positions are character offsets.
use vstd::prelude::*;
use crate::text::{
    chars_of, find_sub, is_ws, is_ws_char, lemma_find_sub, lemma_trim_start_char, matches_at,
    matches_at_exec, slice, split, string_of, trim, trim_start,
};
use crate::text;
use crate::kv::StrMap;
use crate::sse::{is_re_space, run_len, run_len_exec};
use crate::config::ModelConfig;

verus! {

// ───────────────────────── characters and lines ─────────────────────────

/// A space or a tab: `[ \t]`.
pub open spec fn is_blank(c: char) -> bool {
    c == ' ' || c == '\t'
}

/// The number of leading blanks.
pub open spec fn blank_len(s: Seq<char>) -> nat
    decreases s.len(),
{
    if s.len() > 0 && is_blank(s[0]) {
        1 + blank_len(s.drop_first())
    } else {
        0
    }
}

/// `s` without trailing blanks.
pub open spec fn blank_trim_end(s: Seq<char>) -> Seq<char>
    decreases s.len(),
{
    if s.len() > 0 && is_blank(s.last()) {
        blank_trim_end(s.drop_last())
    } else {
        s
    }
}

/// Where the line that holds position `p` ends: the next `'\n'` at or after
/// `p`, or the end of the text.
pub open spec fn line_end(c: Seq<char>, p: int) -> int
    decreases c.len() - p,
{
    if p >= c.len() || p < 0 {
        c.len() as int
    } else if c[p] == '\n' {
        p
    } else {
        line_end(c, p + 1)
    }
}

/// The start of the line after the one at `p`.
pub open spec fn next_line(c: Seq<char>, p: int) -> int {
    if line_end(c, p) < c.len() {
        line_end(c, p) + 1
    } else {
        c.len() as int
    }
}

/// `p` is at the start of a line.
pub open spec fn at_line_start(c: Seq<char>, p: int) -> bool {
    p == 0 || (0 < p <= c.len() && c[p - 1] == '\n')
}

/// The number of bytes UTF-8 uses for `c`.
pub open spec fn utf8_width(c: char) -> nat {
    if (c as u32) < 0x80 {
        1
    } else if (c as u32) < 0x800 {
        2
    } else if (c as u32) < 0x10000 {
        3
    } else {
        4
    }
}

/// The UTF-8 length of `s` in bytes (`str::len`).
pub open spec fn utf8_len(s: Seq<char>) -> nat
    decreases s.len(),
{
    if s.len() == 0 {
        0
    } else {
        utf8_len(s.drop_last()) + utf8_width(s.last())
    }
}

/// The byte length of the leading whitespace of a line:
/// `line.len() - line.trim_start().len()`.
pub open spec fn ws_indent(l: Seq<char>) -> nat {
    utf8_len(l.take(l.len() - trim_start(l).len()))
}

// ───────────────────────── a `key: value` line ─────────────────────────

/// The value written after a key's colon, up to a `#` comment or the end of
/// the line, without the blanks around it: `[ \t]*([^\n#]*?)[ \t]*(#.*)?$`.
pub open spec fn hash_pos(rest: Seq<char>) -> int {
    match find_sub(rest, seq!['#']) {
        Some(i) => i,
        None => rest.len() as int,
    }
}

pub open spec fn line_value(rest: Seq<char>) -> Seq<char> {
    let v = rest.take(hash_pos(rest));
    blank_trim_end(v.skip(blank_len(v) as int))
}

/// The largest indent `b <= from` at which `key` (with its colon) starts the line.
pub open spec fn key_pos_from(l: Seq<char>, k: Seq<char>, from: nat) -> Option<nat>
    decreases from,
{
    if matches_at(l, k, from as int) {
        Some(from)
    } else if from == 0 {
        None
    } else {
        key_pos_from(l, k, (from - 1) as nat)
    }
}

/// Where `segment:` follows the line's blank indent: `^([ \t]*)(segment):`.
pub open spec fn key_pos(l: Seq<char>, seg: Seq<char>) -> Option<nat> {
    key_pos_from(l, seg + seq![':'], blank_len(l))
}

/// `YAML` scalar quotes removed: a trimmed value wrapped in `"..."` or `'...'`
/// loses the two quotes.
pub open spec fn unquote(raw: Seq<char>) -> Seq<char> {
    let t = trim(raw);
    if t.len() >= 2 && ((t[0] == '"' && t.last() == '"') || (t[0] == '\'' && t.last() == '\'')) {
        t.subrange(1, t.len() - 1)
    } else {
        t
    }
}

/// A trimmed value that is a single quote character, on which quote removal
/// would take the slice `t[1..0]`.
pub open spec fn lone_quote(raw: Seq<char>) -> bool {
    trim(raw) == seq!['"'] || trim(raw) == seq!['\'']
}

// ───────────────────────── finding a path segment ─────────────────────────

/// A matched segment line: its indent, the raw value, the value's bounds and
/// the start of the next line.
pub struct SegHit {
    pub indent: nat,
    pub raw: Seq<char>,
    pub value_start: int,
    pub value_end: int,
    pub after_line: int,
}

/// The hit for the line at `p` whose key starts at indent `b`.
pub open spec fn seg_hit(c: Seq<char>, p: int, seg: Seq<char>, b: nat) -> SegHit {
    let le = line_end(c, p);
    let key_end = p + b + seg.len() + 1;
    let rest = c.subrange(key_end, le);
    let v = rest.take(hash_pos(rest));
    let gap = blank_len(v);
    let value = line_value(rest);
    SegHit {
        indent: b,
        raw: value,
        value_start: key_end + gap,
        value_end: key_end + gap + value.len(),
        after_line: next_line(c, p),
    }
}

/// Scans the lines from `p` for `seg` among the direct children of a block
/// whose own indent is `parent`: blank and comment lines are skipped, the
/// first line indented no deeper than the parent ends the block, and the
/// first remaining line fixes the children's indent `dci`.
pub open spec fn seg_search(c: Seq<char>, p: int, parent: int, seg: Seq<char>, dci: Option<nat>) -> Option<
    SegHit,
>
    decreases c.len() - p,
{
    if p < 0 || p >= c.len() {
        None
    } else {
        proof {
            lemma_line_end(c, p);
        }
        let l = c.subrange(p, line_end(c, p));
        let t = trim(l);
        if t.len() == 0 || t[0] == '#' {
            seg_search(c, next_line(c, p), parent, seg, dci)
        } else {
            let ind = ws_indent(l);
            if ind <= parent {
                None
            } else {
                let d = match dci {
                    Some(d) => d,
                    None => ind,
                };
                if ind == d && key_pos(l, seg) is Some {
                    Some(seg_hit(c, p, seg, key_pos(l, seg)->0))
                } else {
                    seg_search(c, next_line(c, p), parent, seg, Some(d))
                }
            }
        }
    }
}

/// The non-empty segments of a dotted path.
pub open spec fn nonempty(ps: Seq<Seq<char>>) -> Seq<Seq<char>>
    decreases ps.len(),
{
    if ps.len() == 0 {
        seq![]
    } else if ps.last().len() > 0 {
        nonempty(ps.drop_last()).push(ps.last())
    } else {
        nonempty(ps.drop_last())
    }
}

pub open spec fn path_segments(path: Seq<char>) -> Seq<Seq<char>> {
    nonempty(split(path, seq!['.']))
}

/// Follows the segments from index `i`, each searched inside the block that
/// the previous one opened.
pub open spec fn walk(c: Seq<char>, segs: Seq<Seq<char>>, i: int, p: int, parent: int) -> Option<SegHit>
    decreases segs.len() - i,
{
    if i < 0 || i >= segs.len() {
        None
    } else {
        match seg_search(c, p, parent, segs[i], None) {
            None => None,
            Some(h) => if i == segs.len() - 1 {
                Some(h)
            } else {
                walk(c, segs, i + 1, h.after_line, h.indent as int)
            },
        }
    }
}

/// The line that a dotted path names, if any.
pub open spec fn yaml_path_hit(c: Seq<char>, path: Seq<char>) -> Option<SegHit> {
    walk(c, path_segments(path), 0, 0, -1)
}


// ───────────────────────── lemmas ─────────────────────────

pub proof fn lemma_line_end(c: Seq<char>, p: int)
    requires
        0 <= p <= c.len(),
    ensures
        p <= line_end(c, p) <= c.len(),
        line_end(c, p) < c.len() ==> c[line_end(c, p)] == '\n',
        forall|j: int| p <= j < line_end(c, p) ==> c[j] != '\n',
    decreases c.len() - p,
{
    if p < c.len() && c[p] != '\n' {
        lemma_line_end(c, p + 1);
    }
}

pub proof fn lemma_blank_len(s: Seq<char>, k: int)
    requires
        0 <= k <= s.len(),
        forall|j: int| 0 <= j < k ==> is_blank(#[trigger] s[j]),
        k == s.len() || !is_blank(s[k]),
    ensures
        blank_len(s) == k,
    decreases k,
{
    if k > 0 {
        let t = s.drop_first();
        assert forall|j: int| 0 <= j < k - 1 implies is_blank(#[trigger] t[j]) by {
            assert(t[j] == s[j + 1]);
        }
        lemma_blank_len(t, k - 1);
    }
}

/// What `blank_len` counts: the leading blanks, up to a character that is not one.
pub proof fn lemma_blank_len_props(s: Seq<char>)
    ensures
        blank_len(s) <= s.len(),
        forall|i: int| 0 <= i < blank_len(s) ==> is_blank(#[trigger] s[i]),
        blank_len(s) < s.len() ==> !is_blank(s[blank_len(s) as int]),
    decreases s.len(),
{
    if s.len() > 0 && is_blank(s[0]) {
        lemma_blank_len_props(s.drop_first());
        assert forall|i: int| 0 <= i < blank_len(s) implies is_blank(#[trigger] s[i]) by {
            if i > 0 {
                assert(s[i] == s.drop_first()[i - 1]);
            }
        }
        if blank_len(s) < s.len() {
            assert(s[blank_len(s) as int] == s.drop_first()[blank_len(s.drop_first()) as int]);
        }
    }
}

pub proof fn lemma_blank_trim_end(s: Seq<char>, k: int)
    requires
        0 <= k <= s.len(),
        forall|j: int| k <= j < s.len() ==> is_blank(#[trigger] s[j]),
        k == 0 || !is_blank(s[k - 1]),
    ensures
        blank_trim_end(s) == s.take(k),
    decreases s.len() - k,
{
    if k == s.len() {
        assert(s.take(k) =~= s);
    } else {
        let t = s.drop_last();
        assert forall|j: int| k <= j < t.len() implies is_blank(#[trigger] t[j]) by {
            assert(t[j] == s[j]);
        }
        lemma_blank_trim_end(t, k);
        assert(t.take(k) =~= s.take(k));
    }
}

pub proof fn lemma_key_pos_from(l: Seq<char>, k: Seq<char>, from: nat)
    ensures
        key_pos_from(l, k, from) matches Some(b) ==> b <= from && matches_at(l, k, b as int),
    decreases from,
{
    if !matches_at(l, k, from as int) && from > 0 {
        lemma_key_pos_from(l, k, (from - 1) as nat);
    }
}

// ───────────────────────── executable ─────────────────────────

/// End of the line at `p`.
pub fn line_end_exec(c: &Vec<char>, p: usize) -> (r: usize)
    requires
        p <= c.len(),
    ensures
        r as int == line_end(c@, p as int),
        p <= r <= c.len(),
{
    let mut q = p;
    while q < c.len() && c[q] != '\n'
        invariant
            p <= q <= c.len(),
            line_end(c@, p as int) == line_end(c@, q as int),
        decreases c.len() - q,
    {
        q += 1;
    }
    q
}

pub fn next_line_exec(c: &Vec<char>, p: usize) -> (r: usize)
    requires
        p <= c.len(),
    ensures
        r as int == next_line(c@, p as int),
        p <= r <= c.len(),
        p < c.len() ==> p < r,
{
    let le = line_end_exec(c, p);
    proof {
        lemma_line_end(c@, p as int);
    }
    if le < c.len() {
        le + 1
    } else {
        c.len()
    }
}

pub fn is_blank_char(c: char) -> (b: bool)
    ensures
        b == is_blank(c),
{
    c == ' ' || c == '\t'
}

/// The number of leading blanks of `s`.
pub fn blank_len_exec(s: &Vec<char>) -> (r: usize)
    ensures
        r as int == blank_len(s@),
        r <= s.len(),
{
    let mut k: usize = 0;
    while k < s.len() && is_blank_char(s[k])
        invariant
            k <= s.len(),
            forall|j: int| 0 <= j < k ==> is_blank(#[trigger] s@[j]),
        decreases s.len() - k,
    {
        k += 1;
    }
    proof {
        lemma_blank_len(s@, k as int);
    }
    k
}

/// `s` without trailing blanks.
pub fn blank_trim_end_exec(s: &Vec<char>) -> (r: Vec<char>)
    ensures
        r@ == blank_trim_end(s@),
{
    let mut k = s.len();
    while k > 0 && is_blank_char(s[k - 1])
        invariant
            k <= s.len(),
            forall|j: int| k <= j < s.len() ==> is_blank(#[trigger] s@[j]),
        decreases k,
    {
        k -= 1;
    }
    proof {
        lemma_blank_trim_end(s@, k as int);
    }
    let r = slice(s, 0, k);
    assert(r@ =~= s@.take(k as int));
    r
}

pub fn utf8_width_exec(c: char) -> (w: u128)
    ensures
        w == utf8_width(c),
        1 <= w <= 4,
{
    let u = c as u32;
    if u < 0x80 {
        1
    } else if u < 0x800 {
        2
    } else if u < 0x10000 {
        3
    } else {
        4
    }
}

/// Byte length of the leading whitespace of `l`.
pub fn ws_indent_exec(l: &Vec<char>) -> (r: u128)
    ensures
        r == ws_indent(l@),
{
    let mut k: usize = 0;
    while k < l.len() && is_ws_char(l[k])
        invariant
            k <= l.len(),
            forall|j: int| 0 <= j < k ==> is_ws(#[trigger] l@[j]),
        decreases l.len() - k,
    {
        k += 1;
    }
    proof {
        lemma_trim_start_char(l@, k as int);
        assert(l@.skip(k as int).len() == l.len() - k);
    }
    let mut r: u128 = 0;
    let mut j: usize = 0;
    while j < k
        invariant
            j <= k <= l.len(),
            r == utf8_len(l@.take(j as int)),
            r <= 4 * j,
        decreases k - j,
    {
        assert(l@.take(j + 1).drop_last() =~= l@.take(j as int));
        r = r + utf8_width_exec(l[j]);
        j += 1;
    }
    r
}

/// The value after a key's colon and the blanks before it.
pub fn line_value_exec(rest: &Vec<char>) -> (r: (usize, Vec<char>))
    ensures
        r.0 as int == blank_len(rest@.take(hash_pos(rest@))),
        r.1@ == line_value(rest@),
        r.0 + r.1@.len() <= hash_pos(rest@) <= rest@.len(),
{
    let hash: Vec<char> = vec!['#'];
    assert(hash@ =~= seq!['#']);
    assert(rest@.skip(0) =~= rest@);
    let h = match text::find_from(rest, &hash, 0) {
        Some(i) => {
            proof {
                lemma_find_sub(rest@, seq!['#']);
            }
            i
        },
        None => rest.len(),
    };
    let v = slice(rest, 0, h);
    assert(v@ =~= rest@.take(hash_pos(rest@)));
    let gap = blank_len_exec(&v);
    let tail = slice(&v, gap, v.len());
    assert(tail@ =~= v@.skip(gap as int));
    let value = blank_trim_end_exec(&tail);
    proof {
        lemma_blank_trim_end_len(tail@);
    }
    (gap, value)
}

pub proof fn lemma_blank_trim_end_len(s: Seq<char>)
    ensures
        blank_trim_end(s).len() <= s.len(),
    decreases s.len(),
{
    if s.len() > 0 && is_blank(s.last()) {
        lemma_blank_trim_end_len(s.drop_last());
    }
}

/// The largest indent at which the key with its colon starts the line.
pub fn key_pos_exec(l: &Vec<char>, key_colon: &Vec<char>) -> (r: Option<usize>)
    ensures
        r matches Some(b) ==> key_pos_from(l@, key_colon@, blank_len(l@)) == Some(b as nat),
        r is None ==> key_pos_from(l@, key_colon@, blank_len(l@)) is None,
{
    let bl = blank_len_exec(l);
    let mut b = bl;
    loop
        invariant
            b <= bl,
            key_pos_from(l@, key_colon@, blank_len(l@)) == key_pos_from(l@, key_colon@, b as nat),
        decreases b,
    {
        if matches_at_exec(l, key_colon, b) {
            return Some(b);
        }
        if b == 0 {
            return None;
        }
        b -= 1;
    }
}

/// Quote removal of a trimmed value (see [`unquote`]).
fn unquote_exec(raw: &Vec<char>) -> (r: Vec<char>)
    requires
        !lone_quote(raw@),
    ensures
        r@ == unquote(raw@),
{
    let t = text::trim_vec(raw);
    if t.len() >= 2 && ((t[0] == '"' && t[t.len() - 1] == '"') || (t[0] == '\'' && t[t.len() - 1]
        == '\'')) {
        slice(&t, 1, t.len() - 1)
    } else {
        t
    }
}

/// Strips one pair of surrounding `"` or `'` quotes from a trimmed value.
pub fn strip_yaml_quotes(raw: &str) -> (r: String)
    requires
        !lone_quote(raw@),
    ensures
        r@ == unquote(raw@),
{
    let v = chars_of(raw);
    string_of(unquote_exec(&v).as_slice())
}


/// Whether a raw value is a lone quote, on which quote removal stops.
pub fn is_lone_quote(raw: &str) -> (b: bool)
    ensures
        b == lone_quote(raw@),
{
    let v = chars_of(raw);
    let t = text::trim_vec(&v);
    if t.len() == 1 && t[0] == '"' {
        assert(t@ =~= seq!['"']);
        true
    } else if t.len() == 1 && t[0] == '\'' {
        assert(t@ =~= seq!['\'']);
        true
    } else {
        assert(t@ != seq!['"'] && t@ != seq!['\'']) by {
            if t@ == seq!['"'] || t@ == seq!['\''] {
                assert(t@.len() == 1);
                assert(t@[0] == t[0]);
            }
        }
        false
    }
}

// ───────────────────────── path search ─────────────────────────

/// A found segment line (see [`SegHit`]), with executable fields.
pub struct SegFound {
    pub indent: usize,
    pub raw: Vec<char>,
    pub value_start: usize,
    pub value_end: usize,
    pub after_line: usize,
}

pub open spec fn found_view(f: SegFound) -> SegHit {
    SegHit {
        indent: f.indent as nat,
        raw: f.raw@,
        value_start: f.value_start as int,
        value_end: f.value_end as int,
        after_line: f.after_line as int,
    }
}

pub open spec fn dci_view(d: Option<u128>) -> Option<nat> {
    match d {
        Some(x) => Some(x as nat),
        None => None,
    }
}

/// Finds `seg` among the direct children of the block that starts at
/// `start_at` and whose own indent is `parent` (`-1` for the top level).
pub fn find_segment_in_block(c: &Vec<char>, start_at: usize, parent: i128, seg: &Vec<char>) -> (r:
    Option<SegFound>)
    requires
        start_at <= c.len(),
        -1 <= parent <= usize::MAX,
    ensures
        match r {
            Some(f) => seg_search(c@, start_at as int, parent as int, seg@, None) == Some(
                found_view(f),
            ) && f.value_start <= f.value_end <= c.len() && f.after_line <= c.len(),
            None => seg_search(c@, start_at as int, parent as int, seg@, None) is None,
        },
{
    let mut kc = slice(seg, 0, seg.len());
    assert(kc@ =~= seg@);
    kc.push(':');
    let mut dci: Option<u128> = None;
    let mut cursor = start_at;
    while cursor < c.len()
        invariant
            cursor <= c.len(),
            -1 <= parent <= usize::MAX,
            kc@ == seg@ + seq![':'],
            seg_search(c@, cursor as int, parent as int, seg@, dci_view(dci)) == seg_search(
                c@,
                start_at as int,
                parent as int,
                seg@,
                None,
            ),
        decreases c.len() - cursor,
    {
        proof {
            lemma_line_end(c@, cursor as int);
        }
        let le = line_end_exec(c, cursor);
        let l = slice(c, cursor, le);
        let t = text::trim_vec(&l);
        let nxt = next_line_exec(c, cursor);
        if t.len() == 0 || t[0] == '#' {
            cursor = nxt;
        } else {
            let ind = ws_indent_exec(&l);
            proof {
                lemma_ws_indent_bound(l@);
            }
            if (ind as i128) <= parent {
                return None;
            }
            let d = match dci {
                Some(d) => d,
                None => ind,
            };
            if ind == d {
                match key_pos_exec(&l, &kc) {
                    Some(b) => {
                        proof {
                            lemma_key_pos_from(l@, kc@, blank_len(l@));
                        }
                        let key_end = cursor + b + seg.len() + 1;
                        let rest = slice(c, key_end, le);
                        let (gap, value) = line_value_exec(&rest);
                        let vs = key_end + gap;
                        let ve = vs + value.len();
                        let f = SegFound {
                            indent: b,
                            raw: value,
                            value_start: vs,
                            value_end: ve,
                            after_line: nxt,
                        };
                        assert(found_view(f) == seg_hit(c@, cursor as int, seg@, b as nat));
                        return Some(f);
                    },
                    None => {},
                }
            }
            dci = Some(d);
            cursor = nxt;
        }
    }
    None
}

pub proof fn lemma_utf8_len_bound(s: Seq<char>)
    ensures
        utf8_len(s) <= 4 * s.len(),
    decreases s.len(),
{
    if s.len() > 0 {
        lemma_utf8_len_bound(s.drop_last());
    }
}

pub proof fn lemma_ws_indent_bound(l: Seq<char>)
    ensures
        ws_indent(l) <= 4 * l.len(),
{
    text::lemma_trim_start_is_suffix(l);
    lemma_utf8_len_bound(l.take(l.len() - trim_start(l).len()));
}

/// A value found by [`find_yaml_path`] or [`find_top_level_key`]: its text
/// without quotes, and the bounds of the raw value in the file, both as
/// character positions and as byte offsets in the file's UTF-8 text.
pub struct YamlPathHit {
    pub value: String,
    pub value_start: usize,
    pub value_end: usize,
    pub byte_start: u128,
    pub byte_end: u128,
}

/// The UTF-8 length in bytes of the first `n` characters.
pub fn utf8_prefix_len(c: &Vec<char>, n: usize) -> (r: u128)
    requires
        n <= c.len(),
    ensures
        r == utf8_len(c@.take(n as int)),
{
    let mut r: u128 = 0;
    let mut j: usize = 0;
    while j < n
        invariant
            j <= n <= c.len(),
            r == utf8_len(c@.take(j as int)),
            r <= 4 * j,
        decreases n - j,
    {
        assert(c@.take(j + 1).drop_last() =~= c@.take(j as int));
        r = r + utf8_width_exec(c[j]);
        j += 1;
    }
    r
}

/// The non-empty segments of a dotted path.
pub fn path_segments_exec(path: &Vec<char>) -> (r: Vec<Vec<char>>)
    ensures
        r@.len() == path_segments(path@).len(),
        forall|k: int| 0 <= k < r@.len() ==> #[trigger] r@[k]@ == path_segments(path@)[k],
{
    let dot: Vec<char> = vec!['.'];
    assert(dot@ =~= seq!['.']);
    let parts = text::split_exec(path, &dot);
    let ghost ps = split(path@, seq!['.']);
    let mut r: Vec<Vec<char>> = Vec::new();
    let mut i: usize = 0;
    while i < parts.len()
        invariant
            i <= parts.len(),
            ps == split(path@, seq!['.']),
            parts@.len() == ps.len(),
            forall|k: int| 0 <= k < parts@.len() ==> #[trigger] parts@[k]@ == ps[k],
            r@.len() == nonempty(ps.take(i as int)).len(),
            forall|k: int| 0 <= k < r@.len() ==> #[trigger] r@[k]@ == nonempty(ps.take(i as int))[k],
        decreases parts.len() - i,
    {
        proof {
            assert(ps.take(i + 1).drop_last() =~= ps.take(i as int));
            assert(ps.take(i + 1).last() == parts@[i as int]@);
        }
        if parts[i].len() > 0 {
            let p = slice(&parts[i], 0, parts[i].len());
            assert(p@ =~= parts@[i as int]@);
            r.push(p);
        }
        i += 1;
    }
    assert(ps.take(parts.len() as int) =~= ps);
    r
}

/// The raw value found at a dotted path, before quote removal.
pub fn yaml_path_raw(content: &str, dotted_path: &str) -> (r: Option<String>)
    ensures
        match r {
            Some(v) => yaml_path_hit(content@, dotted_path@) matches Some(h) && v@ == h.raw,
            None => yaml_path_hit(content@, dotted_path@) is None,
        },
{
    let c = chars_of(content);
    let pv = chars_of(dotted_path);
    let segs = path_segments_exec(&pv);
    let ghost gs = path_segments(dotted_path@);
    if segs.len() == 0 {
        return None;
    }
    let mut cursor: usize = 0;
    let mut parent: i128 = -1;
    let mut i: usize = 0;
    while i < segs.len()
        invariant
            i <= segs.len(),
            cursor <= c.len(),
            -1 <= parent <= usize::MAX,
            c@ == content@,
            gs == path_segments(dotted_path@),
            segs@.len() == gs.len(),
            forall|k: int| 0 <= k < segs@.len() ==> #[trigger] segs@[k]@ == gs[k],
            walk(c@, gs, i as int, cursor as int, parent as int) == yaml_path_hit(
                content@,
                dotted_path@,
            ),
        decreases segs.len() - i,
    {
        assert(segs@[i as int]@ == gs[i as int]);
        match find_segment_in_block(&c, cursor, parent, &segs[i]) {
            None => {
                return None;
            },
            Some(f) => {
                if i == segs.len() - 1 {
                    return Some(string_of(f.raw.as_slice()));
                }
                cursor = f.after_line;
                parent = f.indent as i128;
            },
        }
        i += 1;
    }
    None
}

/// The value at a dotted path such as `agent.service_tier`: each segment is
/// looked up among the direct children of the block the previous one opened.
pub fn find_yaml_path(content: &str, dotted_path: &str) -> (r: Option<YamlPathHit>)
    requires
        yaml_path_hit(content@, dotted_path@) matches Some(h) ==> !lone_quote(h.raw),
    ensures
        match r {
            Some(h) => yaml_path_hit(content@, dotted_path@) matches Some(x) && h.value@ == unquote(
                x.raw,
            ) && h.value_start == x.value_start && h.value_end == x.value_end && h.value_start
                <= h.value_end <= content@.len() && h.byte_start == utf8_len(content@.take(x.value_start))
                && h.byte_end == utf8_len(content@.take(x.value_end)),
            None => yaml_path_hit(content@, dotted_path@) is None,
        },
{
    let c = chars_of(content);
    let pv = chars_of(dotted_path);
    let segs = path_segments_exec(&pv);
    let ghost gs = path_segments(dotted_path@);
    if segs.len() == 0 {
        return None;
    }
    let mut cursor: usize = 0;
    let mut parent: i128 = -1;
    let mut i: usize = 0;
    while i < segs.len()
        invariant
            i <= segs.len(),
            cursor <= c.len(),
            -1 <= parent <= usize::MAX,
            c@ == content@,
            gs == path_segments(dotted_path@),
            segs@.len() == gs.len(),
            forall|k: int| 0 <= k < segs@.len() ==> #[trigger] segs@[k]@ == gs[k],
            walk(c@, gs, i as int, cursor as int, parent as int) == yaml_path_hit(
                content@,
                dotted_path@,
            ),
            yaml_path_hit(content@, dotted_path@) matches Some(h) ==> !lone_quote(h.raw),
        decreases segs.len() - i,
    {
        assert(segs@[i as int]@ == gs[i as int]);
        match find_segment_in_block(&c, cursor, parent, &segs[i]) {
            None => {
                return None;
            },
            Some(f) => {
                if i == segs.len() - 1 {
                    let v = unquote_exec(&f.raw);
                    let byte_start = utf8_prefix_len(&c, f.value_start);
                    let byte_end = utf8_prefix_len(&c, f.value_end);
                    return Some(
                        YamlPathHit {
                            value: string_of(v.as_slice()),
                            value_start: f.value_start,
                            value_end: f.value_end,
                            byte_start,
                            byte_end,
                        },
                    );
                }
                cursor = f.after_line;
                parent = f.indent as i128;
            },
        }
        i += 1;
    }
    None
}


// ───────────────────────── top-level keys ─────────────────────────

/// The first line start at or after `p` where `k` begins.
pub open spec fn first_line_match(c: Seq<char>, k: Seq<char>, p: int) -> Option<int>
    decreases c.len() + 1 - p,
{
    if p < 0 || p > c.len() {
        None
    } else if at_line_start(c, p) && matches_at(c, k, p) {
        Some(p)
    } else {
        first_line_match(c, k, p + 1)
    }
}

/// The value of the first line `key: value` that starts at the beginning of
/// a line: `(?m)^(key):([ \t]*)([^\n#]*?)([ \t]*)(#.*)?$`.
pub open spec fn top_level_hit(c: Seq<char>, key: Seq<char>) -> Option<SegHit> {
    match first_line_match(c, key + seq![':'], 0) {
        None => None,
        Some(p) => {
            let key_end = p + key.len() + 1;
            let le = line_end(c, key_end);
            let rest = c.subrange(key_end, le);
            let gap = blank_len(rest.take(hash_pos(rest)));
            let value = line_value(rest);
            Some(
                SegHit {
                    indent: 0,
                    raw: value,
                    value_start: key_end + gap,
                    value_end: key_end + gap + value.len(),
                    after_line: next_line(c, key_end),
                },
            )
        },
    }
}

pub proof fn lemma_first_line_match(c: Seq<char>, k: Seq<char>, p: int)
    ensures
        first_line_match(c, k, p) matches Some(q) ==> p <= q && at_line_start(c, q) && matches_at(
            c,
            k,
            q,
        ),
    decreases c.len() + 1 - p,
{
    if 0 <= p <= c.len() && !(at_line_start(c, p) && matches_at(c, k, p)) {
        lemma_first_line_match(c, k, p + 1);
    }
}

/// The first line start at or after `from` where `k` begins.
pub fn first_line_match_exec(c: &Vec<char>, k: &Vec<char>, from: usize) -> (r: Option<usize>)
    requires
        from <= c.len(),
    ensures
        match r {
            Some(q) => first_line_match(c@, k@, from as int) == Some(q as int) && q + k.len()
                <= c.len(),
            None => first_line_match(c@, k@, from as int) is None,
        },
{
    let mut p = from;
    loop
        invariant
            from <= p <= c.len(),
            first_line_match(c@, k@, p as int) == first_line_match(c@, k@, from as int),
        decreases c.len() - p,
    {
        if (p == 0 || c[p - 1] == '\n') && matches_at_exec(c, k, p) {
            return Some(p);
        }
        if p == c.len() {
            assert(first_line_match(c@, k@, p + 1) is None);
            return None;
        }
        p += 1;
    }
}

/// The raw value of a top-level key, before quote removal.
pub fn top_level_raw(content: &str, key: &str) -> (r: Option<String>)
    ensures
        match r {
            Some(v) => top_level_hit(content@, key@) matches Some(h) && v@ == h.raw,
            None => top_level_hit(content@, key@) is None,
        },
{
    let c = chars_of(content);
    let mut k = chars_of(key);
    k.push(':');
    assert(k@ =~= key@ + seq![':']);
    match first_line_match_exec(&c, &k, 0) {
        None => None,
        Some(p) => {
            let key_end = p + k.len();
            let le = line_end_exec(&c, key_end);
            let rest = slice(&c, key_end, le);
            let (_gap, value) = line_value_exec(&rest);
            Some(string_of(value.as_slice()))
        },
    }
}

/// The value of a top-level key.
pub fn find_top_level_key(content: &str, key: &str) -> (r: Option<YamlPathHit>)
    requires
        top_level_hit(content@, key@) matches Some(h) ==> !lone_quote(h.raw),
    ensures
        match r {
            Some(h) => top_level_hit(content@, key@) matches Some(x) && h.value@ == unquote(x.raw)
                && h.value_start == x.value_start && h.value_end == x.value_end && h.value_start
                <= h.value_end <= content@.len() && h.byte_start == utf8_len(content@.take(x.value_start))
                && h.byte_end == utf8_len(content@.take(x.value_end)),
            None => top_level_hit(content@, key@) is None,
        },
{
    let c = chars_of(content);
    let mut k = chars_of(key);
    k.push(':');
    assert(k@ =~= key@ + seq![':']);
    match first_line_match_exec(&c, &k, 0) {
        None => None,
        Some(p) => {
            let key_end = p + k.len();
            let le = line_end_exec(&c, key_end);
            let rest = slice(&c, key_end, le);
            let (gap, value) = line_value_exec(&rest);
            let v = unquote_exec(&value);
            let byte_start = utf8_prefix_len(&c, key_end + gap);
            let byte_end = utf8_prefix_len(&c, key_end + gap + value.len());
            Some(
                YamlPathHit {
                    value: string_of(v.as_slice()),
                    value_start: key_end + gap,
                    value_end: key_end + gap + value.len(),
                    byte_start,
                    byte_end,
                },
            )
        },
    }
}

// ───────────────────────── blocks ─────────────────────────

/// Where the body of a block starts when the line at `p` is its header
/// `name:` followed only by blanks and a line break: `name:[ \t]*\r?\n`.
pub open spec fn header_end(c: Seq<char>, name: Seq<char>, p: int) -> Option<int> {
    let k = name + seq![':'];
    if !matches_at(c, k, p) {
        None
    } else {
        let q = p + k.len();
        let r = q + blank_len(c.skip(q));
        if r < c.len() && c[r] == '\n' {
            Some(r + 1)
        } else if r + 1 < c.len() && c[r] == '\r' && c[r + 1] == '\n' {
            Some(r + 2)
        } else {
            None
        }
    }
}

pub open spec fn first_header(c: Seq<char>, name: Seq<char>, p: int) -> Option<int>
    decreases c.len() + 1 - p,
{
    if p < 0 || p > c.len() {
        None
    } else if at_line_start(c, p) && header_end(c, name, p) is Some {
        header_end(c, name, p)
    } else {
        first_header(c, name, p + 1)
    }
}

/// The start of the body of the first top-level block `name:`.
pub open spec fn block_body(c: Seq<char>, name: Seq<char>) -> Option<int> {
    first_header(c, name, 0)
}

pub proof fn lemma_first_header(c: Seq<char>, name: Seq<char>, p: int)
    ensures
        first_header(c, name, p) matches Some(e) ==> 0 <= e <= c.len(),
    decreases c.len() + 1 - p,
{
    if 0 <= p <= c.len() {
        if !(at_line_start(c, p) && header_end(c, name, p) is Some) {
            lemma_first_header(c, name, p + 1);
        }
    }
}

fn header_end_exec(c: &Vec<char>, k: &Vec<char>, p: usize) -> (r: Option<usize>)
    requires
        p <= c.len(),
        k@.len() > 0,
        k@.last() == ':',
    ensures
        r matches Some(e) ==> e <= c.len() && header_end(c@, k@.drop_last(), p as int) == Some(
            e as int,
        ),
        r is None ==> header_end(c@, k@.drop_last(), p as int) is None,
{
    assert(k@.drop_last() + seq![':'] =~= k@);
    if !matches_at_exec(c, k, p) {
        return None;
    }
    let q = p + k.len();
    let tail = slice(c, q, c.len());
    assert(tail@ =~= c@.skip(q as int));
    let b = blank_len_exec(&tail);
    let r = q + b;
    if r < c.len() && c[r] == '\n' {
        Some(r + 1)
    } else if r < c.len() && r + 1 < c.len() && c[r] == '\r' && c[r + 1] == '\n' {
        Some(r + 2)
    } else {
        None
    }
}

/// The start of the body of the first top-level block `name:`.
pub fn block_body_exec(c: &Vec<char>, name: &Vec<char>) -> (r: Option<usize>)
    ensures
        match r {
            Some(e) => block_body(c@, name@) == Some(e as int) && e <= c.len(),
            None => block_body(c@, name@) is None,
        },
{
    let mut k = slice(name, 0, name.len());
    assert(k@ =~= name@);
    k.push(':');
    assert(k@.drop_last() =~= name@);
    let mut p: usize = 0;
    loop
        invariant
            p <= c.len(),
            k@ == name@ + seq![':'],
            first_header(c@, name@, p as int) == block_body(c@, name@),
        decreases c.len() - p,
    {
        assert(k@.drop_last() =~= name@);
        if p == 0 || c[p - 1] == '\n' {
            match header_end_exec(c, &k, p) {
                Some(e) => {
                    return Some(e);
                },
                None => {},
            }
        }
        if p == c.len() {
            assert(first_header(c@, name@, p + 1) is None);
            return None;
        }
        p += 1;
    }
}

/// A character of a child key after its first: `[A-Za-z0-9_-]`.
pub open spec fn is_key_char(c: char) -> bool {
    ('a' <= c && c <= 'z') || ('A' <= c && c <= 'Z') || ('0' <= c && c <= '9') || c == '_' || c
        == '-'
}

/// The first character of a child key: `[A-Za-z_]`.
pub open spec fn is_key_start(c: char) -> bool {
    ('a' <= c && c <= 'z') || ('A' <= c && c <= 'Z') || c == '_'
}

pub open spec fn key_run(s: Seq<char>) -> nat
    decreases s.len(),
{
    if s.len() > 0 && is_key_char(s[0]) {
        1 + key_run(s.drop_first())
    } else {
        0
    }
}

/// A child line `^([ \t]+)([A-Za-z_][A-Za-z0-9_-]*):` with its indent, key
/// and raw value.
pub open spec fn child_line(l: Seq<char>) -> Option<(Seq<char>, Seq<char>, Seq<char>)> {
    let b = blank_len(l);
    if b == 0 || b >= l.len() || !is_key_start(l[b as int]) {
        None
    } else {
        let n = key_run(l.skip(b as int));
        let e = (b + n) as int;
        if e < l.len() && l[e] == ':' {
            Some((l.take(b as int), l.subrange(b as int, e), line_value(l.skip(e + 1))))
        } else {
            None
        }
    }
}

/// Collects the children of a block from its lines, the first value of a key
/// winning, among the lines at the indent of the first child; `None` where a
/// value to keep is a lone quote.
pub open spec fn children_fold(
    ls: Seq<Seq<char>>,
    i: int,
    first: Option<Seq<char>>,
    m: Map<Seq<char>, Seq<char>>,
) -> Option<Map<Seq<char>, Seq<char>>>
    decreases ls.len() - i,
{
    if i < 0 || i >= ls.len() {
        Some(m)
    } else {
        let l = ls[i];
        if trim(l).len() == 0 {
            children_fold(ls, i + 1, first, m)
        } else if !(l[0] == ' ' || l[0] == '\t') {
            Some(m)
        } else {
            match child_line(l) {
                None => children_fold(ls, i + 1, first, m),
                Some(t) => {
                    let f = match first {
                        Some(f) => f,
                        None => t.0,
                    };
                    if t.0 == f && !m.contains_key(t.1) {
                        if lone_quote(t.2) {
                            None
                        } else {
                            children_fold(ls, i + 1, Some(f), m.insert(t.1, unquote(t.2)))
                        }
                    } else {
                        children_fold(ls, i + 1, Some(f), m)
                    }
                },
            }
        }
    }
}

/// The children of the top-level block `name`: empty when there is no such
/// block, `None` where reading them would stop on a lone quote.
pub open spec fn block_children(c: Seq<char>, name: Seq<char>) -> Option<Map<Seq<char>, Seq<char>>> {
    match block_body(c, name) {
        None => Some(Map::empty()),
        Some(s) => children_fold(text::lines(c.skip(s)), 0, None, Map::empty()),
    }
}


pub proof fn lemma_key_run(s: Seq<char>, k: int)
    requires
        0 <= k <= s.len(),
        forall|j: int| 0 <= j < k ==> is_key_char(#[trigger] s[j]),
        k == s.len() || !is_key_char(s[k]),
    ensures
        key_run(s) == k,
    decreases k,
{
    if k > 0 {
        let t = s.drop_first();
        assert forall|j: int| 0 <= j < k - 1 implies is_key_char(#[trigger] t[j]) by {
            assert(t[j] == s[j + 1]);
        }
        lemma_key_run(t, k - 1);
    }
}

fn is_key_char_exec(c: char) -> (b: bool)
    ensures
        b == is_key_char(c),
{
    ('a' <= c && c <= 'z') || ('A' <= c && c <= 'Z') || ('0' <= c && c <= '9') || c == '_' || c
        == '-'
}

/// Recognizes a child line: indent, key and raw value.
fn child_line_exec(l: &Vec<char>) -> (r: Option<(Vec<char>, Vec<char>, Vec<char>)>)
    ensures
        match r {
            Some(t) => child_line(l@) == Some((t.0@, t.1@, t.2@)),
            None => child_line(l@) is None,
        },
{
    let b = blank_len_exec(l);
    if b == 0 || b >= l.len() {
        return None;
    }
    let c0 = l[b];
    if !(('a' <= c0 && c0 <= 'z') || ('A' <= c0 && c0 <= 'Z') || c0 == '_') {
        return None;
    }
    let mut e = b;
    while e < l.len() && is_key_char_exec(l[e])
        invariant
            b <= e <= l.len(),
            forall|j: int| b <= j < e ==> is_key_char(#[trigger] l@[j]),
        decreases l.len() - e,
    {
        e += 1;
    }
    proof {
        let t = l@.skip(b as int);
        assert forall|j: int| 0 <= j < e - b implies is_key_char(#[trigger] t[j]) by {
            assert(t[j] == l@[b + j]);
        }
        lemma_key_run(t, e - b);
    }
    if e < l.len() && l[e] == ':' {
        let ind = slice(l, 0, b);
        let key = slice(l, b, e);
        let rest = slice(l, e + 1, l.len());
        assert(ind@ =~= l@.take(b as int));
        assert(rest@ =~= l@.skip(e + 1));
        let (_gap, value) = line_value_exec(&rest);
        Some((ind, key, value))
    } else {
        None
    }
}

pub open spec fn opt_chars(o: Option<Vec<char>>) -> Option<Seq<char>> {
    match o {
        Some(v) => Some(v@),
        None => None,
    }
}

/// The children `key: value` of the top-level block `block_name`, as the
/// model settings are read from `config.yaml`.
pub fn read_top_level_block_children(content: &str, block_name: &str) -> (r: StrMap)
    requires
        block_children(content@, block_name@) is Some,
    ensures
        block_children(content@, block_name@) == Some(r@),
{
    let c = chars_of(content);
    let name = chars_of(block_name);
    let mut m = StrMap::new();
    let start = match block_body_exec(&c, &name) {
        None => {
            return m;
        },
        Some(s) => s,
    };
    let rest = slice(&c, start, c.len());
    assert(rest@ =~= c@.skip(start as int));
    let ls = text::lines_exec(&rest);
    let ghost all = text::lines(rest@);
    let mut first: Option<Vec<char>> = None;
    let mut i: usize = 0;
    while i < ls.len()
        invariant
            i <= ls.len(),
            all == text::lines(rest@),
            rest@ == c@.skip(start as int),
            c@ == content@,
            name@ == block_name@,
            block_body(content@, block_name@) == Some(start as int),
            ls@.len() == all.len(),
            forall|k: int| 0 <= k < ls@.len() ==> #[trigger] ls@[k]@ == all[k],
            children_fold(all, i as int, opt_chars(first), m@) == block_children(
                content@,
                block_name@,
            ),
            block_children(content@, block_name@) is Some,
        decreases ls.len() - i,
    {
        let l = &ls[i];
        assert(l@ == all[i as int]);
        let t = text::trim_vec(l);
        if t.len() == 0 {
            i += 1;
            continue;
        }
        if !(l[0] == ' ' || l[0] == '\t') {
            return m;
        }
        match child_line_exec(l) {
            None => {},
            Some((ind, key, raw)) => {
                let f = match first {
                    Some(f) => f,
                    None => slice(&ind, 0, ind.len()),
                };
                assert(f@ == match opt_chars(first) {
                    Some(x) => x,
                    None => ind@,
                }) by {
                    if first is None {
                        assert(f@ =~= ind@);
                    }
                }
                let ks = string_of(key.as_slice());
                if text::eq_chars(&ind, &f) && !m.contains_key(ks.as_str()) {
                    let v = unquote_exec(&raw);
                    m.insert(ks, string_of(v.as_slice()));
                }
                first = Some(f);
            },
        }
        i += 1;
    }
    m
}


/// Whether the children of a top-level block can be read: no value kept on
/// the way is a lone quote.
pub fn block_children_defined(content: &str, block_name: &str) -> (b: bool)
    ensures
        b == (block_children(content@, block_name@) is Some),
{
    let c = chars_of(content);
    let name = chars_of(block_name);
    let mut m = StrMap::new();
    let start = match block_body_exec(&c, &name) {
        None => {
            return true;
        },
        Some(s) => s,
    };
    let rest = slice(&c, start, c.len());
    assert(rest@ =~= c@.skip(start as int));
    let ls = text::lines_exec(&rest);
    let ghost all = text::lines(rest@);
    let mut first: Option<Vec<char>> = None;
    let mut i: usize = 0;
    while i < ls.len()
        invariant
            i <= ls.len(),
            all == text::lines(rest@),
            rest@ == c@.skip(start as int),
            c@ == content@,
            name@ == block_name@,
            block_body(content@, block_name@) == Some(start as int),
            ls@.len() == all.len(),
            forall|k: int| 0 <= k < ls@.len() ==> #[trigger] ls@[k]@ == all[k],
            children_fold(all, i as int, opt_chars(first), m@) == block_children(
                content@,
                block_name@,
            ),
        decreases ls.len() - i,
    {
        let l = &ls[i];
        assert(l@ == all[i as int]);
        let t = text::trim_vec(l);
        if t.len() == 0 {
            i += 1;
            continue;
        }
        if !(l[0] == ' ' || l[0] == '\t') {
            return true;
        }
        match child_line_exec(l) {
            None => {},
            Some((ind, key, raw)) => {
                let f = match first {
                    Some(f) => f,
                    None => slice(&ind, 0, ind.len()),
                };
                assert(f@ == match opt_chars(first) {
                    Some(x) => x,
                    None => ind@,
                }) by {
                    if first is None {
                        assert(f@ =~= ind@);
                    }
                }
                let ks = string_of(key.as_slice());
                if text::eq_chars(&ind, &f) && !m.contains_key(ks.as_str()) {
                    let rs = string_of(raw.as_slice());
                    if is_lone_quote(rs.as_str()) {
                        return false;
                    }
                    let v = unquote_exec(&raw);
                    m.insert(ks, string_of(v.as_slice()));
                }
                first = Some(f);
            },
        }
        i += 1;
    }
    true
}

// ───────────────────────── editing block children ─────────────────────────

/// The first `'\n'` or `#` at or after `q`: where `[^\n#]*` stops.
pub open spec fn scan_stop(s: Seq<char>, q: int) -> int
    decreases s.len() - q,
{
    if q < 0 || q >= s.len() {
        s.len() as int
    } else if s[q] == '\n' || s[q] == '#' {
        q
    } else {
        scan_stop(s, q + 1)
    }
}

/// The indent at which an indented `key:` (with its colon) starts the line at `p`.
pub open spec fn child_key_at(rest: Seq<char>, kc: Seq<char>, p: int) -> Option<nat> {
    let l = rest.skip(p);
    match key_pos_from(l, kc, blank_len(l)) {
        Some(b) => if b >= 1 {
            Some(b)
        } else {
            None
        },
        None => None,
    }
}

/// The first line of `rest` that is `^([ \t]+)key:`, with its indent.
pub open spec fn first_child_key(rest: Seq<char>, kc: Seq<char>, p: int) -> Option<(int, nat)>
    decreases rest.len() + 1 - p,
{
    if p < 0 || p > rest.len() {
        None
    } else if at_line_start(rest, p) && child_key_at(rest, kc, p) is Some {
        Some((p, child_key_at(rest, kc, p)->0))
    } else {
        first_child_key(rest, kc, p + 1)
    }
}

/// `key: "value"` in place of the first indented `key:` line after the block
/// header, up to a comment or the line end; the text unchanged without block
/// or line.
pub open spec fn replaced_child(c: Seq<char>, block: Seq<char>, key: Seq<char>, value: Seq<char>) -> Seq<
    char,
> {
    match block_body(c, block) {
        None => c,
        Some(s) => {
            let rest = c.skip(s);
            match first_child_key(rest, key + seq![':'], 0) {
                None => c,
                Some(hit) => {
                    let p = hit.0;
                    let b = hit.1;
                    let e = scan_stop(rest, p + b + key.len() + 1);
                    c.take(s + p) + rest.subrange(p, p + b) + key + ": \""@ + value + seq!['"']
                        + rest.skip(e)
                },
            }
        },
    }
}

/// The separator put before text appended to `c`: none after an empty text
/// or a final line break.
pub open spec fn line_sep(c: Seq<char>) -> Seq<char> {
    if c.len() == 0 || c.last() == '\n' {
        seq![]
    } else {
        seq!['\n']
    }
}

/// `key: "value"` set in the top-level block `block`: replaced when the
/// block has the key, added as its first child when it has not, and the
/// block appended when there is none.
pub open spec fn upserted(c: Seq<char>, block: Seq<char>, key: Seq<char>, value: Seq<char>) -> Seq<char> {
    if block_children(c, block) matches Some(m) && m.contains_key(key) {
        replaced_child(c, block, key, value)
    } else {
        match block_body(c, block) {
            Some(s) => c.take(s) + "  "@ + key + ": \""@ + value + "\"\n"@ + c.skip(s),
            None => c + line_sep(c) + block + ":\n  "@ + key + ": \""@ + value + "\"\n"@,
        }
    }
}

pub proof fn lemma_scan_stop(s: Seq<char>, q: int)
    requires
        0 <= q <= s.len(),
    ensures
        q <= scan_stop(s, q) <= s.len(),
    decreases s.len() - q,
{
    if q < s.len() && !(s[q] == '\n' || s[q] == '#') {
        lemma_scan_stop(s, q + 1);
    }
}

fn scan_stop_exec(s: &Vec<char>, q: usize) -> (r: usize)
    requires
        q <= s.len(),
    ensures
        r as int == scan_stop(s@, q as int),
        q <= r <= s.len(),
{
    let mut e = q;
    while e < s.len() && s[e] != '\n' && s[e] != '#'
        invariant
            q <= e <= s.len(),
            scan_stop(s@, e as int) == scan_stop(s@, q as int),
        decreases s.len() - e,
    {
        e += 1;
    }
    e
}

fn first_child_key_exec(rest: &Vec<char>, kc: &Vec<char>) -> (r: Option<(usize, usize)>)
    ensures
        match r {
            Some(h) => first_child_key(rest@, kc@, 0) == Some((h.0 as int, h.1 as nat)) && h.0
                + h.1 + kc.len() <= rest.len(),
            None => first_child_key(rest@, kc@, 0) is None,
        },
{
    let mut p: usize = 0;
    loop
        invariant
            p <= rest.len(),
            first_child_key(rest@, kc@, p as int) == first_child_key(rest@, kc@, 0),
        decreases rest.len() - p,
    {
        if p == 0 || rest[p - 1] == '\n' {
            let l = slice(rest, p, rest.len());
            assert(l@ =~= rest@.skip(p as int));
            match key_pos_exec(&l, kc) {
                Some(b) => {
                    if b >= 1 {
                        proof {
                            lemma_key_pos_from(l@, kc@, blank_len(l@));
                        }
                        return Some((p, b));
                    }
                },
                None => {},
            }
        }
        if p == rest.len() {
            assert(first_child_key(rest@, kc@, p + 1) is None);
            return None;
        }
        p += 1;
    }
}

fn replace_block_child_chars(c: &Vec<char>, block: &Vec<char>, key: &Vec<char>, value: &Vec<char>) -> (r:
    Vec<char>)
    ensures
        r@ == replaced_child(c@, block@, key@, value@),
{
    let s = match block_body_exec(c, block) {
        None => {
            return slice(c, 0, c.len());
        },
        Some(s) => s,
    };
    let rest = slice(c, s, c.len());
    assert(rest@ =~= c@.skip(s as int));
    let mut kc = slice(key, 0, key.len());
    kc.push(':');
    assert(kc@ =~= key@ + seq![':']);
    match first_child_key_exec(&rest, &kc) {
        None => slice(c, 0, c.len()),
        Some((p, b)) => {
            let e = scan_stop_exec(&rest, p + b + key.len() + 1);
            let mut r = slice(c, 0, s + p);
            let ind = slice(&rest, p, p + b);
            text::push_all(&mut r, &ind);
            text::push_all(&mut r, key);
            text::push_str(&mut r, ": \"");
            text::push_all(&mut r, value);
            r.push('"');
            let tail = slice(&rest, e, rest.len());
            text::push_all(&mut r, &tail);
            assert(tail@ =~= rest@.skip(e as int));
            assert(r@ =~= replaced_child(c@, block@, key@, value@));
            r
        },
    }
}

/// Replaces the value of `key` under the top-level block `block_name` with
/// the quoted `value`.
pub fn replace_block_child(content: &str, block_name: &str, key: &str, value: &str) -> (r: String)
    ensures
        r@ == replaced_child(content@, block_name@, key@, value@),
{
    let c = chars_of(content);
    let b = chars_of(block_name);
    let k = chars_of(key);
    let v = chars_of(value);
    string_of(replace_block_child_chars(&c, &b, &k, &v).as_slice())
}

/// Sets `key: "value"` under the top-level block `block_name`, adding the
/// key or the block where missing.
pub fn upsert_block_child(content: &str, block_name: &str, key: &str, value: &str) -> (r: String)
    requires
        block_children(content@, block_name@) is Some,
    ensures
        r@ == upserted(content@, block_name@, key@, value@),
{
    let children = read_top_level_block_children(content, block_name);
    if children.contains_key(key) {
        return replace_block_child(content, block_name, key, value);
    }
    let c = chars_of(content);
    let name = chars_of(block_name);
    match block_body_exec(&c, &name) {
        Some(s) => {
            let mut r = slice(&c, 0, s);
            text::push_str(&mut r, "  ");
            text::push_str(&mut r, key);
            text::push_str(&mut r, ": \"");
            text::push_str(&mut r, value);
            text::push_str(&mut r, "\"\n");
            let tail = slice(&c, s, c.len());
            text::push_all(&mut r, &tail);
            assert(r@ =~= upserted(content@, block_name@, key@, value@));
            string_of(r.as_slice())
        },
        None => {
            let mut r = slice(&c, 0, c.len());
            if !(c.len() == 0 || c[c.len() - 1] == '\n') {
                r.push('\n');
            }
            text::push_all(&mut r, &name);
            text::push_str(&mut r, ":\n  ");
            text::push_str(&mut r, key);
            text::push_str(&mut r, ": \"");
            text::push_str(&mut r, value);
            text::push_str(&mut r, "\"\n");
            assert(r@ =~= upserted(content@, block_name@, key@, value@));
            string_of(r.as_slice())
        },
    }
}


// ───────────────────────── model settings ─────────────────────────

/// The value bounds of a `streaming:` setting whose optional leading
/// whitespace starts at `p`: `^(\s*streaming:\s*)(\S+)`.
pub open spec fn streaming_at(c: Seq<char>, p: int) -> Option<(int, int)> {
    let q = p + run_len(c.skip(p), true);
    if matches_at(c, "streaming:"@, q) {
        let r0 = q + 10;
        let r = r0 + run_len(c.skip(r0), true);
        let t = r + run_len(c.skip(r), false);
        if t > r {
            Some((r, t))
        } else {
            None
        }
    } else {
        None
    }
}

pub open spec fn first_streaming(c: Seq<char>, p: int) -> Option<(int, int)>
    decreases c.len() + 1 - p,
{
    if p < 0 || p > c.len() {
        None
    } else if at_line_start(c, p) && streaming_at(c, p) is Some {
        streaming_at(c, p)
    } else {
        first_streaming(c, p + 1)
    }
}

/// The first `streaming:` setting turned to `true`.
pub open spec fn streaming_enabled(c: Seq<char>) -> Seq<char> {
    match first_streaming(c, 0) {
        Some(b) => c.take(b.0) + "true"@ + c.skip(b.1),
        None => c,
    }
}

fn streaming_at_exec(c: &Vec<char>, p: usize) -> (r: Option<(usize, usize)>)
    requires
        p <= c.len(),
    ensures
        match r {
            Some(b) => streaming_at(c@, p as int) == Some((b.0 as int, b.1 as int)) && b.0 <= b.1
                <= c.len(),
            None => streaming_at(c@, p as int) is None,
        },
{
    let n = c.len();
    assert(c@.subrange(p as int, n as int) =~= c@.skip(p as int));
    let q = p + run_len_exec(c, p, n, true);
    let kw = chars_of("streaming:");
    proof {
        reveal_strlit("streaming:");
    }
    if !matches_at_exec(c, &kw, q) {
        return None;
    }
    let r0 = q + 10;
    assert(c@.subrange(r0 as int, n as int) =~= c@.skip(r0 as int));
    let r = r0 + run_len_exec(c, r0, n, true);
    assert(c@.subrange(r as int, n as int) =~= c@.skip(r as int));
    let t = r + run_len_exec(c, r, n, false);
    if t > r {
        Some((r, t))
    } else {
        None
    }
}

fn streaming_enabled_exec(c: &Vec<char>) -> (r: Vec<char>)
    ensures
        r@ == streaming_enabled(c@),
{
    let mut p: usize = 0;
    loop
        invariant
            p <= c.len(),
            first_streaming(c@, p as int) == first_streaming(c@, 0),
        decreases c.len() - p,
    {
        if p == 0 || c[p - 1] == '\n' {
            match streaming_at_exec(c, p) {
                Some((r, t)) => {
                    let mut out = slice(c, 0, r);
                    text::push_str(&mut out, "true");
                    let tail = slice(c, t, c.len());
                    text::push_all(&mut out, &tail);
                    assert(out@ =~= streaming_enabled(c@));
                    return out;
                },
                None => {},
            }
        }
        if p == c.len() {
            assert(first_streaming(c@, p + 1) is None);
            return slice(c, 0, c.len());
        }
        p += 1;
    }
}

/// The new text of `config.yaml` after the model settings: provider and
/// model, the base URL when given, and streaming switched on.
pub open spec fn model_config_text(c: Seq<char>, provider: Seq<char>, model: Seq<char>, base_url: Seq<
    char,
>) -> Seq<char> {
    let c1 = upserted(c, "model"@, "provider"@, provider);
    let c2 = upserted(c1, "model"@, "default"@, model);
    let c3 = if base_url.len() > 0 {
        upserted(c2, "model"@, "base_url"@, base_url)
    } else {
        c2
    };
    streaming_enabled(c3)
}

/// Each step of [`model_config_text`] reads the model block, which stops on
/// a lone quote.
pub open spec fn model_config_readable(c: Seq<char>, provider: Seq<char>, model: Seq<char>, base_url: Seq<
    char,
>) -> bool {
    let c1 = upserted(c, "model"@, "provider"@, provider);
    let c2 = upserted(c1, "model"@, "default"@, model);
    &&& block_children(c, "model"@) is Some
    &&& block_children(c1, "model"@) is Some
    &&& base_url.len() > 0 ==> block_children(c2, "model"@) is Some
}

/// Whether the model settings can be written into a `config.yaml` text
/// (see [`model_config_readable`]).
pub fn model_config_writable(content: &str, provider: &str, model: &str, base_url: &str) -> (b: bool)
    ensures
        b == model_config_readable(content@, provider@, model@, base_url@),
{
    if !block_children_defined(content, "model") {
        return false;
    }
    let c1 = upsert_block_child(content, "model", "provider", provider);
    if !block_children_defined(c1.as_str(), "model") {
        return false;
    }
    if base_url.unicode_len() == 0 {
        return true;
    }
    let c2 = upsert_block_child(c1.as_str(), "model", "default", model);
    block_children_defined(c2.as_str(), "model")
}

/// The text to write to `config.yaml` (empty when it does not exist yet) for
/// the new model settings.
pub fn set_model_config(content: &str, provider: &str, model: &str, base_url: &str) -> (r: String)
    requires
        model_config_readable(content@, provider@, model@, base_url@),
    ensures
        r@ == model_config_text(content@, provider@, model@, base_url@),
{
    let c1 = upsert_block_child(content, "model", "provider", provider);
    let c2 = upsert_block_child(c1.as_str(), "model", "default", model);
    let c3 = if base_url.unicode_len() > 0 {
        upsert_block_child(c2.as_str(), "model", "base_url", base_url)
    } else {
        c2
    };
    let v = chars_of(c3.as_str());
    string_of(streaming_enabled_exec(&v).as_slice())
}

/// The model settings read from `config.yaml`: the children `provider`,
/// `default` and `base_url` of the `model` block, `auto` and empty by default.
pub open spec fn model_config_of(c: Seq<char>) -> (Seq<char>, Seq<char>, Seq<char>) {
    let m = block_children(c, "model"@)->0;
    (
        if m.contains_key("provider"@) { m["provider"@] } else { "auto"@ },
        if m.contains_key("default"@) { m["default"@] } else { seq![] },
        if m.contains_key("base_url"@) { m["base_url"@] } else { seq![] },
    )
}

fn get_or(m: &StrMap, key: &str, d: &str) -> (r: String)
    ensures
        r@ == if m@.contains_key(key@) { m@[key@] } else { d@ },
{
    match m.get(key) {
        Some(v) => v,
        None => {
            let v = chars_of(d);
            string_of(v.as_slice())
        },
    }
}

/// The model settings in a `config.yaml` text.
pub fn model_config_from_yaml(content: &str) -> (r: ModelConfig)
    requires
        block_children(content@, "model"@) is Some,
    ensures
        (r.provider@, r.model@, r.base_url@) == model_config_of(content@),
{
    let m = read_top_level_block_children(content, "model");
    let provider = get_or(&m, "provider", "auto");
    let model = get_or(&m, "default", "");
    let base_url = get_or(&m, "base_url", "");
    proof {
        reveal_strlit("");
        assert(""@ =~= Seq::<char>::empty());
    }
    ModelConfig { provider, model, base_url }
}

} // verus!
