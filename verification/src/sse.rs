//! Server-sent-event stream parsing: splitting a buffer into `\n\n`-separated
//! blocks, reading `event:`/`data:` lines, and interpreting OpenAI-style chunks.
use vstd::prelude::*;
use crate::json::{parse_json, Json, JsonValue, json_parse};
use crate::text;
use crate::text::{chars_of, lines, split, starts_with, string_of, trim};

verus! {

// ───────────────────────── block splitting ─────────────────────────

/// The non-empty pieces of a sequence of pieces, in order.
pub open spec fn non_empty(ps: Seq<Seq<char>>) -> Seq<Seq<char>>
    decreases ps.len(),
{
    if ps.len() == 0 {
        seq![]
    } else if ps.last().len() > 0 {
        non_empty(ps.drop_last()).push(ps.last())
    } else {
        non_empty(ps.drop_last())
    }
}

pub open spec fn sse_delim() -> Seq<char> {
    seq!['\n', '\n']
}

/// Complete blocks of a buffer: every non-empty `\n\n`-separated piece, except
/// the last piece when the buffer does not end with `\n\n`.
pub open spec fn sse_blocks(buffer: Seq<char>) -> Seq<Seq<char>> {
    let parts = split(buffer, sse_delim());
    if text::ends_with(buffer, sse_delim()) {
        non_empty(parts)
    } else {
        non_empty(parts.drop_last())
    }
}

/// The incomplete tail of a buffer: the last piece, unless the buffer ends with `\n\n`.
pub open spec fn sse_remaining(buffer: Seq<char>) -> Seq<char> {
    let parts = split(buffer, sse_delim());
    if buffer.len() == 0 || text::ends_with(buffer, sse_delim()) {
        seq![]
    } else {
        parts.last()
    }
}

proof fn lemma_split_nonempty(s: Seq<char>, d: Seq<char>)
    requires
        d.len() > 0,
    ensures
        split(s, d).len() > 0,
    decreases s.len(),
{
    match text::find_sub(s, d) {
        Some(i) => {
            text::lemma_find_sub(s, d);
            lemma_split_nonempty(s.skip(i + d.len()), d);
        },
        None => {},
    }
}

/// Pieces that are all non-empty are kept as they are.
proof fn lemma_non_empty_all(ps: Seq<Seq<char>>)
    requires
        forall|k: int| 0 <= k < ps.len() ==> (#[trigger] ps[k]).len() > 0,
    ensures
        non_empty(ps) == ps,
    decreases ps.len(),
{
    if ps.len() > 0 {
        assert forall|k: int| 0 <= k < ps.drop_last().len() implies (#[trigger] ps.drop_last()[k]).len() > 0 by {
            assert(ps.drop_last()[k] == ps[k]);
        }
        lemma_non_empty_all(ps.drop_last());
        assert(ps.drop_last().push(ps.last()) =~= ps);
    }
}

/// The complete blocks and the remainder put back together, with `\n\n`
/// between them, give the buffer, when no block between two delimiters is
/// empty (such empty blocks are dropped): joined with the remainder when
/// the buffer does not end with `\n\n`, followed by `\n\n` when it does.
pub proof fn law_sse_blocks_rejoin(buffer: Seq<char>)
    requires
        forall|k: int|
            0 <= k < split(buffer, sse_delim()).len() - 1 ==> (#[trigger] split(buffer, sse_delim())[k]).len() > 0,
    ensures
        text::ends_with(buffer, sse_delim()) && split(buffer, sse_delim()).last().len() == 0 ==> text::join(
            sse_blocks(buffer),
            sse_delim(),
        ) + sse_delim() == buffer,
        text::ends_with(buffer, sse_delim()) && split(buffer, sse_delim()).last().len() > 0 ==> text::join(
            sse_blocks(buffer),
            sse_delim(),
        ) == buffer,
        !text::ends_with(buffer, sse_delim()) ==> text::join(sse_blocks(buffer).push(sse_remaining(buffer)), sse_delim())
            == buffer,
{
    let d = sse_delim();
    let parts = split(buffer, d);
    lemma_split_nonempty(buffer, d);
    text::lemma_split_join(buffer, d);
    let init = parts.drop_last();
    assert forall|k: int| 0 <= k < init.len() implies (#[trigger] init[k]).len() > 0 by {
        assert(init[k] == parts[k]);
    }
    lemma_non_empty_all(init);
    assert(init.push(parts.last()) =~= parts);
    if parts.len() > 1 {
        assert(text::join(parts, d) == text::join(init, d) + d + parts.last());
    } else {
        assert(init =~= Seq::<Seq<char>>::empty());
        assert(text::join(parts, d) == parts[0]);
    }
    if text::ends_with(buffer, d) {
        if parts.last().len() == 0 {
            assert(parts.last() =~= Seq::<char>::empty());
            assert(parts.len() > 1) by {
                if parts.len() == 1 {
                    assert(text::join(parts, d) == Seq::<char>::empty());
                    assert(buffer.len() >= 2);
                }
            }
            assert(non_empty(parts) == non_empty(init));
            assert(text::join(init, d) + d + Seq::<char>::empty() =~= text::join(init, d) + d);
        } else {
            assert forall|k: int| 0 <= k < parts.len() implies (#[trigger] parts[k]).len() > 0 by {
                if k < parts.len() - 1 {
                    assert(parts[k] == init[k]);
                }
            }
            lemma_non_empty_all(parts);
        }
    } else {
        if buffer.len() == 0 {
            assert(parts == seq![buffer]) by {
                text::lemma_find_sub(buffer, d);
            }
            assert(init =~= Seq::<Seq<char>>::empty());
            assert(sse_remaining(buffer) =~= Seq::<char>::empty());
        }
    }
}

/// Splits a raw SSE buffer into complete blocks and the incomplete remainder.
pub fn split_sse_blocks(buffer: &str) -> (r: (Vec<String>, String))
    ensures
        r.0@.len() == sse_blocks(buffer@).len(),
        forall|k: int| 0 <= k < r.0@.len() ==> #[trigger] r.0@[k]@ == sse_blocks(buffer@)[k],
        r.1@ == sse_remaining(buffer@),
{
    let mut blocks: Vec<String> = Vec::new();
    let b = chars_of(buffer);
    if b.len() == 0 {
        let e: Vec<char> = Vec::new();
        proof {
            assert(split(b@, sse_delim()) =~= seq![b@]) by {
                reveal_with_fuel(text::find_sub, 2);
            }
            assert(non_empty(seq![b@].drop_last()) =~= seq![]);
        }
        return (blocks, string_of(e.as_slice()));
    }
    let delim: Vec<char> = vec!['\n', '\n'];
    assert(delim@ =~= sse_delim());
    let parts = text::split_exec(&b, &delim);
    let ends = text::ends_with_exec(&b, &delim);
    proof {
        lemma_split_nonempty(b@, sse_delim());
    }
    let ghost ps = split(b@, sse_delim());
    let stop = if ends { parts.len() } else { parts.len() - 1 };
    let mut i: usize = 0;
    while i < stop
        invariant
            i <= stop <= parts.len(),
            ps == split(b@, sse_delim()),
            ps.len() == parts@.len(),
            forall|k: int| 0 <= k < parts@.len() ==> #[trigger] parts@[k]@ == ps[k],
            blocks@.len() == non_empty(ps.take(i as int)).len(),
            forall|k: int| 0 <= k < blocks@.len() ==> #[trigger] blocks@[k]@ == non_empty(
                ps.take(i as int),
            )[k],
        decreases stop - i,
    {
        proof {
            assert(ps.take(i + 1).drop_last() =~= ps.take(i as int));
            assert(ps.take(i + 1).last() == ps[i as int]);
        }
        if parts[i].len() > 0 {
            blocks.push(string_of(parts[i].as_slice()));
        }
        i += 1;
    }
    let remaining = if ends {
        Vec::new()
    } else {
        let l = parts.len() - 1;
        assert(parts@[l as int]@.subrange(0, parts@[l as int]@.len() as int) =~= parts@[l as int]@);
        text::slice(&parts[l], 0, parts[l].len())
    };
    proof {
        if ends {
            assert(ps.take(stop as int) =~= ps);
        } else {
            assert(ps.take(stop as int) =~= ps.drop_last());
        }
    }
    (blocks, string_of(remaining.as_slice()))
}

// ───────────────────────── block fields ─────────────────────────

/// `event:` and `data:` of a block: for each line, the last `event: ` line gives the
/// trimmed event type and the last `data: ` line gives the data.
pub open spec fn block_fields(ls: Seq<Seq<char>>) -> (Seq<char>, Seq<char>)
    decreases ls.len(),
{
    if ls.len() == 0 {
        (seq![], seq![])
    } else {
        let prev = block_fields(ls.drop_last());
        let l = ls.last();
        if starts_with(l, "event: "@) {
            (trim(l.skip("event: "@.len() as int)), prev.1)
        } else if starts_with(l, "data: "@) {
            (prev.0, l.skip("data: "@.len() as int))
        } else {
            prev
        }
    }
}

/// Parses a single SSE block into its event type and data.
pub fn parse_sse_block(block: &str) -> (r: (String, String))
    ensures
        (r.0@, r.1@) == block_fields(lines(block@)),
{
    let b = chars_of(block);
    let ls = text::lines_exec(&b);
    let ev_p = chars_of("event: ");
    let da_p = chars_of("data: ");
    let mut ev: Vec<char> = Vec::new();
    let mut da: Vec<char> = Vec::new();
    let ghost all = lines(b@);
    let mut i: usize = 0;
    while i < ls.len()
        invariant
            i <= ls.len(),
            all == lines(b@),
            ls@.len() == all.len(),
            forall|k: int| 0 <= k < ls@.len() ==> #[trigger] ls@[k]@ == all[k],
            ev_p@ == "event: "@,
            da_p@ == "data: "@,
            (ev@, da@) == block_fields(all.take(i as int)),
        decreases ls.len() - i,
    {
        let l = &ls[i];
        proof {
            assert(all.take(i + 1).drop_last() =~= all.take(i as int));
            assert(all.take(i + 1).last() == l@);
        }
        if text::starts_with_exec(l, &ev_p) {
            ev = text::trim_range(l, ev_p.len(), l.len());
            assert(l@.subrange(ev_p.len() as int, l@.len() as int) =~= l@.skip(
                ev_p.len() as int,
            ));
        } else if text::starts_with_exec(l, &da_p) {
            da = text::slice(l, da_p.len(), l.len());
            assert(l@.subrange(da_p.len() as int, l@.len() as int) =~= l@.skip(
                da_p.len() as int,
            ));
        }
        i += 1;
    }
    assert(all.take(ls.len() as int) =~= all);
    (string_of(ev.as_slice()), string_of(da.as_slice()))
}

// ───────────────────────── tool progress in content ─────────────────────────

/// `\s` of the tool-progress pattern: ASCII whitespace `[\t\n\v\f\r ]`.
pub open spec fn is_re_space(c: char) -> bool {
    c == '\t' || c == '\n' || c == '\u{b}' || c == '\u{c}' || c == '\r' || c == ' '
}

/// Length of the longest prefix of `s` whose characters all satisfy (or all fail) `is_re_space`.
pub open spec fn run_len(s: Seq<char>, space: bool) -> nat
    decreases s.len(),
{
    if s.len() > 0 && is_re_space(s[0]) == space {
        1 + run_len(s.drop_first(), space)
    } else {
        0
    }
}

proof fn lemma_run_len(s: Seq<char>, space: bool, k: int)
    requires
        0 <= k <= s.len(),
        forall|j: int| 0 <= j < k ==> is_re_space(#[trigger] s[j]) == space,
        k == s.len() || is_re_space(s[k]) != space,
    ensures
        run_len(s, space) == k,
    decreases k,
{
    if k > 0 {
        let t = s.drop_first();
        assert forall|j: int| 0 <= j < k - 1 implies is_re_space(#[trigger] t[j]) == space by {
            assert(t[j] == s[j + 1]);
        }
        lemma_run_len(t, space, k - 1);
    }
}

/// The pattern ``^`([^\s`]+)\s+([^`]+)`$``: the tool's emoji (first capture)
/// and name (second capture), when the content has that shape.
pub open spec fn tool_match(c: Seq<char>) -> Option<(Seq<char>, Seq<char>)> {
    let n = c.len();
    if n < 2 || c[0] != '`' || c[n - 1] != '`' {
        None
    } else {
        let inner = c.subrange(1, n - 1);
        if exists|j: int| 0 <= j < inner.len() && inner[j] == '`' {
            None
        } else {
            let x = run_len(inner, false);
            let rest = inner.skip(x as int);
            let w = run_len(rest, true);
            if x == 0 || rest.len() == 0 {
                None
            } else if w < rest.len() {
                Some((inner.take(x as int), rest.skip(w as int)))
            } else if w >= 2 {
                Some((inner.take(x as int), rest.skip(w - 1)))
            } else {
                None
            }
        }
    }
}

pub fn is_re_space_exec(c: char) -> (b: bool)
    ensures
        b == is_re_space(c),
{
    c == '\t' || c == '\n' || c == '\u{b}' || c == '\u{c}' || c == '\r' || c == ' '
}

pub fn run_len_exec(s: &Vec<char>, lo: usize, hi: usize, space: bool) -> (k: usize)
    requires
        lo <= hi <= s.len(),
    ensures
        lo + k <= hi,
        k == run_len(s@.subrange(lo as int, hi as int), space),
{
    let mut k: usize = 0;
    while lo + k < hi && is_re_space_exec(s[lo + k]) == space
        invariant
            lo + k <= hi <= s.len(),
            forall|j: int| 0 <= j < k ==> is_re_space(#[trigger] s@[lo + j]) == space,
        decreases hi - lo - k,
    {
        k += 1;
    }
    proof {
        let t = s@.subrange(lo as int, hi as int);
        assert forall|j: int| 0 <= j < k implies is_re_space(#[trigger] t[j]) == space by {
            assert(t[j] == s@[lo + j]);
        }
        lemma_run_len(t, space, k as int);
    }
    k
}

/// Matches the tool-progress pattern against trimmed content.
pub fn match_tool_progress(c: &Vec<char>) -> (r: Option<(Vec<char>, Vec<char>)>)
    ensures
        match r {
            Some((a, b)) => tool_match(c@) == Some((a@, b@)),
            None => tool_match(c@) is None,
        },
{
    let n = c.len();
    if n < 2 || c[0] != '`' || c[n - 1] != '`' {
        return None;
    }
    let ghost inner = c@.subrange(1, n - 1);
    let mut j: usize = 1;
    while j < n - 1
        invariant
            1 <= j <= n - 1,
            n == c.len(),
            inner == c@.subrange(1, n - 1),
            forall|k: int| 0 <= k < j - 1 ==> inner[k] != '`',
        decreases n - 1 - j,
    {
        if c[j] == '`' {
            assert(inner[j - 1] == '`');
            return None;
        }
        j += 1;
    }
    let x = run_len_exec(c, 1, n - 1, false);
    let rest_lo = 1 + x;
    let w = run_len_exec(c, rest_lo, n - 1, true);
    proof {
        assert(inner.skip(x as int) =~= c@.subrange(rest_lo as int, n - 1));
        assert(inner.take(x as int) =~= c@.subrange(1, rest_lo as int));
    }
    let rest_len = n - 1 - rest_lo;
    if x == 0 || rest_len == 0 {
        None
    } else if w < rest_len {
        let a = text::slice(c, 1, rest_lo);
        let b = text::slice(c, rest_lo + w, n - 1);
        assert(c@.subrange(rest_lo as int, n - 1).skip(w as int) =~= b@);
        Some((a, b))
    } else if w >= 2 {
        let a = text::slice(c, 1, rest_lo);
        let b = text::slice(c, rest_lo + w - 1, n - 1);
        assert(c@.subrange(rest_lo as int, n - 1).skip(w - 1) =~= b@);
        Some((a, b))
    } else {
        None
    }
}

// ───────────────────────── data lines ─────────────────────────

/// Token usage reported by a chunk. `cost` is the decimal text of the number.
pub struct ParsedUsage {
    pub prompt_tokens: u64,
    pub completion_tokens: u64,
    pub total_tokens: u64,
    pub cost: Option<String>,
    pub rate_limit_remaining: Option<u64>,
    pub rate_limit_reset: Option<u64>,
}

/// What one `data:` line says.
pub struct SseDataResult {
    pub content_delta: Option<String>,
    pub tool_progress: Option<String>,
    pub usage: Option<ParsedUsage>,
    pub error_message: Option<String>,
    pub is_done: bool,
    pub session_id: Option<String>,
}

pub open spec fn opt_view(o: Option<String>) -> Option<Seq<char>> {
    match o {
        Some(s) => Some(s@),
        None => None,
    }
}

pub open spec fn opt_u64(o: Option<u64>) -> Option<int> {
    match o {
        Some(n) => Some(n as int),
        None => None,
    }
}

pub open spec fn or_zero(o: Option<int>) -> int {
    match o {
        Some(n) => n,
        None => 0,
    }
}

/// The decimal text of a number, what `as_f64` would read.
pub open spec fn number_text(v: Json) -> Option<Seq<char>> {
    match v {
        Json::Number(_, t) => Some(t),
        _ => None,
    }
}

/// `usage` of a chunk, read from its `usage` member.
pub open spec fn usage_matches(r: ParsedUsage, u: Json) -> bool {
    &&& r.prompt_tokens == or_zero(u.field("prompt_tokens"@).as_u64())
    &&& r.completion_tokens == or_zero(u.field("completion_tokens"@).as_u64())
    &&& r.total_tokens == or_zero(u.field("total_tokens"@).as_u64())
    &&& opt_view(r.cost) == number_text(u.field("cost"@))
    &&& opt_u64(r.rate_limit_remaining) == u.field("rate_limit_remaining"@).as_u64()
    &&& opt_u64(r.rate_limit_reset) == u.field("rate_limit_reset"@).as_u64()
}

/// The first choice's `delta.content` string, if any.
pub open spec fn delta_content(v: Json) -> Option<Seq<char>> {
    match v.field("choices"@).as_array() {
        Some(cs) => if cs.len() > 0 {
            cs[0].field("delta"@).field("content"@).as_str()
        } else {
            None
        },
        None => None,
    }
}

/// Where content is a tool-progress marker, the text `"{emoji} {name}"`.
pub open spec fn tool_text(c: Seq<char>) -> Option<Seq<char>> {
    match tool_match(trim(c)) {
        Some((a, b)) => Some(a + seq![' '] + b),
        None => None,
    }
}

/// The meaning of a parsed chunk (`None` when the data is not JSON).
pub open spec fn data_result_matches(r: SseDataResult, parsed: Option<Json>, detect_tool: bool) -> bool {
    !r.is_done && match parsed {
        None => r.content_delta is None && r.tool_progress is None && r.usage is None
            && r.error_message is None && r.session_id is None,
        Some(v) => match v.field("error"@) {
            Json::Object(_) => {
                &&& r.content_delta is None && r.tool_progress is None && r.usage is None
                    && r.session_id is None
                &&& opt_view(r.error_message) == Some(
                    match v.field("error"@).str_field("message"@) {
                        Some(m) => m,
                        None => "Unknown error"@,
                    },
                )
            },
            _ => {
                &&& r.error_message is None
                &&& opt_view(r.session_id) == v.str_field("session_id"@)
                &&& match v.get("usage"@) {
                    Some(u) => r.usage matches Some(pu) && usage_matches(pu, u),
                    None => r.usage is None,
                }
                &&& match delta_content(v) {
                    Some(c) => if detect_tool && tool_text(c) is Some {
                        r.content_delta is None && opt_view(r.tool_progress) == tool_text(c)
                    } else {
                        opt_view(r.content_delta) == Some(c) && r.tool_progress is None
                    },
                    None => r.content_delta is None && r.tool_progress is None,
                }
            },
        },
    }
}

fn empty_result(done: bool) -> (r: SseDataResult)
    ensures
        r.is_done == done,
        r.content_delta is None && r.tool_progress is None && r.usage is None
            && r.error_message is None && r.session_id is None,
{
    SseDataResult {
        content_delta: None,
        tool_progress: None,
        usage: None,
        error_message: None,
        is_done: done,
        session_id: None,
    }
}

pub fn read_usage(u: &JsonValue) -> (r: ParsedUsage)
    ensures
        usage_matches(r, u@),
{
    let cost = match u.get("cost") {
        Some(JsonValue::Number(n)) => Some(n.text.clone()),
        _ => None,
    };
    ParsedUsage {
        prompt_tokens: match u.u64_field("prompt_tokens") {
            Some(n) => n,
            None => 0,
        },
        completion_tokens: match u.u64_field("completion_tokens") {
            Some(n) => n,
            None => 0,
        },
        total_tokens: match u.u64_field("total_tokens") {
            Some(n) => n,
            None => 0,
        },
        cost,
        rate_limit_remaining: u.u64_field("rate_limit_remaining"),
        rate_limit_reset: u.u64_field("rate_limit_reset"),
    }
}

/// `value["choices"][0]["delta"]["content"]` as a string.
pub fn read_delta_content(v: &JsonValue) -> (r: Option<String>)
    ensures
        opt_view(r) == delta_content(v@),
{
    match v.get("choices") {
        Some(JsonValue::Array(cs)) => {
            if cs.len() == 0 {
                return None;
            }
            assert(cs@[0]@ == v@.field("choices"@).as_array().unwrap()[0]);
            match cs[0].get("delta") {
                Some(d) => match d.get("content") {
                    Some(x) => x.as_string(),
                    None => None,
                },
                None => None,
            }
        },
        _ => None,
    }
}

/// `"{emoji} {name}"` when trimmed content is a tool-progress marker.
pub fn tool_progress_text(content: &str) -> (r: Option<String>)
    ensures
        opt_view(r) == tool_text(content@),
{
    let c = chars_of(content);
    let t = text::trim_vec(&c);
    match match_tool_progress(&t) {
        Some((a, b)) => {
            let mut out = a;
            out.push(' ');
            text::push_all(&mut out, &b);
            Some(string_of(out.as_slice()))
        },
        None => None,
    }
}

/// Interprets a parsed data line (`None` when it did not parse as JSON).
pub fn process_sse_value(parsed: Option<JsonValue>, detect_tool: bool) -> (r: SseDataResult)
    ensures
        data_result_matches(
            r,
            match parsed {
                Some(v) => Some(v@),
                None => None,
            },
            detect_tool,
        ),
{
    let v = match parsed {
        Some(v) => v,
        None => {
            return empty_result(false);
        },
    };
    if let Some(JsonValue::Object(_)) = v.get("error") {
        let msg = match v.get("error") {
            Some(e) => match e.str_field("message") {
                Some(m) => m,
                None => String::from_str("Unknown error"),
            },
            None => String::from_str("Unknown error"),
        };
        let mut r = empty_result(false);
        r.error_message = Some(msg);
        return r;
    }
    let mut r = empty_result(false);
    r.session_id = v.str_field("session_id");
    if let Some(u) = v.get("usage") {
        r.usage = Some(read_usage(u));
    }
    if let Some(c) = read_delta_content(&v) {
        if detect_tool {
            match tool_progress_text(c.as_str()) {
                Some(t) => {
                    r.tool_progress = Some(t);
                },
                None => {
                    r.content_delta = Some(c);
                },
            }
        } else {
            r.content_delta = Some(c);
        }
    }
    r
}

/// Processes one SSE data line (OpenAI-format streaming chunk). With
/// `detect_tool`, content of the form `` `emoji name` `` is reported as tool progress.
pub fn process_sse_data(data: &str, detect_tool: bool) -> (r: SseDataResult)
    ensures
        data@ == "[DONE]"@ ==> r.is_done && r.content_delta is None && r.tool_progress is None
            && r.usage is None && r.error_message is None && r.session_id is None,
        data@ != "[DONE]"@ ==> data_result_matches(r, json_parse(data@), detect_tool),
{
    let d = chars_of(data);
    let done = chars_of("[DONE]");
    if text::eq_chars(&d, &done) {
        return empty_result(true);
    }
    process_sse_value(parse_json(data), detect_tool)
}

// ───────────────────────── custom events ─────────────────────────

/// The label of a `hermes.tool.progress` payload: `label` (else `tool`), prefixed
/// by `emoji` and a space when there is one; `None` when the label is empty.
pub open spec fn progress_label(payload: Option<Json>) -> Option<Seq<char>> {
    match payload {
        None => None,
        Some(p) => {
            let label = match p.str_field("label"@) {
                Some(l) => l,
                None => match p.str_field("tool"@) {
                    Some(t) => t,
                    None => seq![],
                },
            };
            let emoji = match p.str_field("emoji"@) {
                Some(e) => e,
                None => seq![],
            };
            if label.len() == 0 {
                None
            } else if emoji.len() == 0 {
                Some(label)
            } else {
                Some(emoji + seq![' '] + label)
            }
        },
    }
}

/// Reads the label from a parsed progress payload.
pub fn progress_label_of(payload: Option<JsonValue>) -> (r: Option<String>)
    ensures
        opt_view(r) == progress_label(
            match payload {
                Some(p) => Some(p@),
                None => None,
            },
        ),
{
    let p = match payload {
        Some(p) => p,
        None => {
            return None;
        },
    };
    let label = match p.str_field("label") {
        Some(l) => l,
        None => match p.str_field("tool") {
            Some(t) => t,
            None => String::new(),
        },
    };
    let emoji = match p.str_field("emoji") {
        Some(e) => e,
        None => String::new(),
    };
    let lv = chars_of(label.as_str());
    let ev = chars_of(emoji.as_str());
    if lv.len() == 0 {
        None
    } else if ev.len() == 0 {
        Some(label)
    } else {
        let mut out = ev;
        out.push(' ');
        text::push_all(&mut out, &lv);
        Some(string_of(out.as_slice()))
    }
}

/// Processes a custom SSE event (`event: hermes.tool.progress`).
pub fn process_custom_event(event_type: &str, data: &str) -> (r: Option<String>)
    ensures
        event_type@ != "hermes.tool.progress"@ ==> r is None,
        event_type@ == "hermes.tool.progress"@ ==> opt_view(r) == progress_label(json_parse(data@)),
{
    let e = chars_of(event_type);
    let want = chars_of("hermes.tool.progress");
    if !text::eq_chars(&e, &want) {
        return None;
    }
    progress_label_of(parse_json(data))
}

} // verus!
