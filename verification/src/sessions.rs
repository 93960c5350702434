//! Chat sessions: the text of stored messages, titles for new sessions, the
//! session records reported by a remote host, and the local session cache
//! kept in step with the session database.
use vstd::prelude::*;
use crate::json::{items_view, json_parse, Json, JsonValue};
use crate::sse::{is_re_space, run_len, run_len_exec};
use crate::text::{chars_of, is_ws, join, push_all, push_str, slice, starts_with, string_of, trim};
use crate::text;
use crate::yaml::utf8_len;
use crate::cli::strings_view;

verus! {

// ───────────────────────── records ─────────────────────────

/// A session as the session list shows it.
pub struct SessionSummary {
    pub id: String,
    pub source: String,
    pub started_at: i64,
    pub ended_at: Option<i64>,
    pub message_count: i64,
    pub model: String,
    pub title: Option<String>,
    pub preview: String,
}

/// A stored message.
pub struct SessionMessage {
    pub id: i64,
    pub role: String,
    pub content: String,
    pub timestamp: i64,
}

/// A search hit.
pub struct SearchResult {
    pub session_id: String,
    pub title: Option<String>,
    pub started_at: i64,
    pub source: String,
    pub message_count: i64,
    pub model: String,
    pub snippet: String,
}

/// A session in the local cache.
pub struct CachedSession {
    pub id: String,
    pub title: String,
    pub started_at: i64,
    pub source: String,
    pub message_count: i64,
    pub model: String,
}

// ───────────────────────── message text ─────────────────────────

/// The text of the parts of a structured message: each part's `text`, or
/// else its `content`, when it is a string.
pub open spec fn part_texts(items: Seq<Json>) -> Seq<Seq<char>>
    decreases items.len(),
{
    if items.len() == 0 {
        seq![]
    } else {
        let prev = part_texts(items.drop_last());
        let it = items.last();
        match it.get("text"@) {
            Some(Json::Str(t)) => prev.push(t),
            _ => match it.get("content"@) {
                Some(Json::Str(c)) => prev.push(c),
                _ => prev,
            },
        }
    }
}

/// The prefix marking a message stored as JSON.
pub open spec fn json_prefix() -> Seq<char> {
    seq!['\0', 'j', 's', 'o', 'n', ':']
}

/// The readable text of a stored message: a message stored as JSON shows
/// the texts of its parts (of its `content` array, or of the array itself)
/// joined by spaces, or its string; anything else shows as stored.
pub open spec fn decoded(raw: Seq<char>) -> Seq<char> {
    if starts_with(raw, json_prefix()) {
        match json_parse(raw.skip(6)) {
            Some(v) => {
                let arr = match v.get("content"@) {
                    Some(Json::Array(a)) => Some(a),
                    _ => match v {
                        Json::Array(a) => Some(a),
                        _ => None,
                    },
                };
                match arr {
                    Some(items) => join(part_texts(items), seq![' ']),
                    None => match v {
                        Json::Str(s) => s,
                        _ => raw,
                    },
                }
            },
            None => raw,
        }
    } else {
        raw
    }
}

fn part_texts_exec(items: &Vec<JsonValue>) -> (r: Vec<Vec<char>>)
    ensures
        r@.map_values(|p: Vec<char>| p@) == part_texts(items_view(items@)),
{
    let ghost iv = items_view(items@);
    let mut r: Vec<Vec<char>> = Vec::new();
    let mut i: usize = 0;
    while i < items.len()
        invariant
            i <= items.len(),
            iv == items_view(items@),
            r@.map_values(|p: Vec<char>| p@) == part_texts(iv.take(i as int)),
        decreases items.len() - i,
    {
        proof {
            assert(iv.take(i + 1).drop_last() =~= iv.take(i as int));
            assert(iv.take(i + 1).last() == items@[i as int]@);
        }
        let ghost before = r@.map_values(|p: Vec<char>| p@);
        match items[i].get("text") {
            Some(JsonValue::Str(t)) => {
                r.push(chars_of(t.as_str()));
                assert(r@.map_values(|p: Vec<char>| p@) =~= before.push(t@));
            },
            _ => match items[i].get("content") {
                Some(JsonValue::Str(c)) => {
                    r.push(chars_of(c.as_str()));
                    assert(r@.map_values(|p: Vec<char>| p@) =~= before.push(c@));
                },
                _ => {},
            },
        }
        i += 1;
    }
    assert(iv.take(items.len() as int) =~= iv);
    r
}

/// The readable text of a stored message.
pub fn decode_content(raw: &str) -> (r: String)
    ensures
        r@ == decoded(raw@),
{
    let c = chars_of(raw);
    let pre: Vec<char> = vec!['\0', 'j', 's', 'o', 'n', ':'];
    assert(pre@ =~= json_prefix());
    if !text::starts_with_exec(&c, &pre) {
        return text::owned(raw);
    }
    let rest = slice(&c, 6, c.len());
    assert(rest@ =~= raw@.skip(6));
    let rs = string_of(rest.as_slice());
    let v = match crate::json::parse_json(rs.as_str()) {
        Some(v) => v,
        None => {
            return text::owned(raw);
        },
    };
    let sp: Vec<char> = vec![' '];
    assert(sp@ =~= seq![' ']);
    match v.get("content") {
        Some(JsonValue::Array(a)) => {
            let ps = part_texts_exec(a);
            return string_of(text::join_exec(&ps, &sp).as_slice());
        },
        _ => {},
    }
    match &v {
        JsonValue::Array(a) => {
            let ps = part_texts_exec(a);
            string_of(text::join_exec(&ps, &sp).as_slice())
        },
        JsonValue::Str(s) => text::owned(s.as_str()),
        _ => text::owned(raw),
    }
}

// ───────────────────────── titles ─────────────────────────

/// Markdown characters dropped from a title.
pub open spec fn markup_char(c: char) -> bool {
    c == '#' || c == '*' || c == '_' || c == '`' || c == '~' || c == '[' || c == ']' || c == '('
        || c == ')'
}

pub open spec fn without_markup(s: Seq<char>) -> Seq<char>
    decreases s.len(),
{
    if s.len() == 0 {
        seq![]
    } else if markup_char(s.last()) {
        without_markup(s.drop_last())
    } else {
        without_markup(s.drop_last()).push(s.last())
    }
}

/// The length of a URL `https?://\S+` at the start of `s`.
pub open spec fn url_len(s: Seq<char>) -> Option<int> {
    let p = if starts_with(s, "https://"@) {
        8int
    } else if starts_with(s, "http://"@) {
        7int
    } else {
        0int
    };
    if p == 0 {
        None
    } else {
        let n = run_len(s.skip(p), false) as int;
        if n > 0 {
            Some(p + n)
        } else {
            None
        }
    }
}

/// `s` without URLs.
pub open spec fn without_urls(s: Seq<char>) -> Seq<char>
    decreases s.len(),
{
    if s.len() == 0 {
        seq![]
    } else {
        match url_len(s) {
            Some(n) => if 0 < n <= s.len() {
                without_urls(s.skip(n))
            } else {
                seq![]
            },
            None => seq![s[0]] + without_urls(s.drop_first()),
        }
    }
}

/// The words of `s` (maximal runs without whitespace) joined by single spaces.
pub open spec fn squeeze_ws(s: Seq<char>) -> Seq<char>
    decreases s.len(),
{
    if s.len() == 0 {
        seq![]
    } else {
        let prev = squeeze_ws(s.drop_last());
        let c = s.last();
        if is_ws(c) {
            prev
        } else if s.len() >= 2 && is_ws(s[s.len() - 2]) && prev.len() > 0 {
            prev + seq![' ', c]
        } else {
            prev.push(c)
        }
    }
}

/// The words of a title, as many as fit in 45 bytes with the spaces between them.
pub open spec fn fit_words(ws: Seq<Seq<char>>, i: int, title: Seq<char>) -> Seq<char>
    decreases ws.len() - i,
{
    if i < 0 || i >= ws.len() {
        title
    } else if utf8_len(title) + utf8_len(ws[i]) + 1 > 45 {
        title
    } else if title.len() == 0 {
        fit_words(ws, i + 1, ws[i])
    } else {
        fit_words(ws, i + 1, title + seq![' '] + ws[i])
    }
}

/// The title of a conversation from its first message: the message without
/// markup and URLs, with its words single-spaced; when longer than 50 bytes,
/// the words that fit in 45 bytes, or its first 45 characters and `...`.
pub open spec fn title_of(message: Seq<char>) -> Seq<char> {
    if trim(message).len() == 0 {
        "New conversation"@
    } else {
        let t = squeeze_ws(without_urls(without_markup(trim(message))));
        if utf8_len(t) <= 50 {
            t
        } else {
            let title = fit_words(text::split(t, seq![' ']), 0, seq![]);
            if title.len() == 0 {
                t.take(if t.len() < 45 {
                    t.len() as int
                } else {
                    45
                }) + "..."@
            } else {
                title
            }
        }
    }
}


fn without_markup_exec(s: &Vec<char>) -> (r: Vec<char>)
    ensures
        r@ == without_markup(s@),
{
    let mut r: Vec<char> = Vec::new();
    let mut i: usize = 0;
    while i < s.len()
        invariant
            i <= s.len(),
            r@ == without_markup(s@.take(i as int)),
        decreases s.len() - i,
    {
        assert(s@.take(i + 1).drop_last() =~= s@.take(i as int));
        let c = s[i];
        if !(c == '#' || c == '*' || c == '_' || c == '`' || c == '~' || c == '[' || c == ']' || c
            == '(' || c == ')') {
            r.push(c);
        }
        i += 1;
    }
    assert(s@.take(s.len() as int) =~= s@);
    r
}

fn without_urls_exec(c: &Vec<char>) -> (r: Vec<char>)
    ensures
        r@ == without_urls(c@),
{
    let https = chars_of("https://");
    let http = chars_of("http://");
    proof {
        reveal_strlit("https://");
        reveal_strlit("http://");
    }
    let mut r: Vec<char> = Vec::new();
    let mut i: usize = 0;
    assert(c@.skip(0) =~= c@);
    while i < c.len()
        invariant
            i <= c.len(),
            https@ == "https://"@,
            http@ == "http://"@,
            https@.len() == 8,
            http@.len() == 7,
            without_urls(c@) == r@ + without_urls(c@.skip(i as int)),
        decreases c.len() - i,
    {
        let ghost t = c@.skip(i as int);
        let tail = slice(c, i, c.len());
        assert(tail@ =~= t);
        let p: usize = if text::starts_with_exec(&tail, &https) {
            8
        } else if text::starts_with_exec(&tail, &http) {
            7
        } else {
            0
        };
        let mut n: usize = 0;
        if p > 0 {
            assert(tail@.subrange(p as int, tail.len() as int) =~= t.skip(p as int));
            n = run_len_exec(&tail, p, tail.len(), false);
        }
        if p > 0 && n > 0 {
            assert(t.skip(p + n) =~= c@.skip(i + p + n));
            i = i + p + n;
        } else {
            r.push(c[i]);
            assert(t.drop_first() =~= c@.skip(i + 1));
            i += 1;
        }
    }
    assert(c@.skip(c.len() as int).len() == 0);
    assert(r@ =~= r@ + without_urls(c@.skip(c.len() as int)));
    r
}

fn squeeze_ws_exec(s: &Vec<char>) -> (r: Vec<char>)
    ensures
        r@ == squeeze_ws(s@),
{
    let mut r: Vec<char> = Vec::new();
    let mut i: usize = 0;
    while i < s.len()
        invariant
            i <= s.len(),
            r@ == squeeze_ws(s@.take(i as int)),
        decreases s.len() - i,
    {
        let ghost t = s@.take(i + 1);
        assert(t.drop_last() =~= s@.take(i as int));
        let c = s[i];
        if !text::is_ws_char(c) {
            if i >= 1 && text::is_ws_char(s[i - 1]) && r.len() > 0 {
                r.push(' ');
                r.push(c);
                assert(r@ =~= squeeze_ws(s@.take(i as int)) + seq![' ', c]);
            } else {
                r.push(c);
            }
        }
        i += 1;
    }
    assert(s@.take(s.len() as int) =~= s@);
    r
}

fn fit_words_exec(ws: &Vec<Vec<char>>, Ghost(wv): Ghost<Seq<Seq<char>>>) -> (r: Vec<char>)
    requires
        ws@.len() == wv.len(),
        forall|k: int| 0 <= k < ws@.len() ==> #[trigger] ws@[k]@ == wv[k],
    ensures
        r@ == fit_words(wv, 0, seq![]),
{
    let mut title: Vec<char> = Vec::new();
    let mut i: usize = 0;
    assert(title@ =~= Seq::<char>::empty());
    while i < ws.len()
        invariant
            i <= ws.len(),
            ws@.len() == wv.len(),
            forall|k: int| 0 <= k < ws@.len() ==> #[trigger] ws@[k]@ == wv[k],
            fit_words(wv, i as int, title@) == fit_words(wv, 0, seq![]),
        decreases ws.len() - i,
    {
        let tl = crate::memory::utf8_len_exec(&title);
        let wl = crate::memory::utf8_len_exec(&ws[i]);
        assert(ws@[i as int]@ == wv[i as int]);
        if tl + wl + 1 > 45 {
            return title;
        }
        if title.len() > 0 {
            let ghost old = title@;
            title.push(' ');
            push_all(&mut title, &ws[i]);
            assert(title@ =~= old + seq![' '] + wv[i as int]);
        } else {
            title = slice(&ws[i], 0, ws[i].len());
            assert(title@ =~= wv[i as int]);
        }
        i += 1;
    }
    title
}

/// A title for a conversation from its first message.
pub fn generate_title(message: &str) -> (r: String)
    ensures
        r@ == title_of(message@),
{
    let m = chars_of(message);
    let t0 = text::trim_vec(&m);
    if t0.len() == 0 {
        return String::from_str("New conversation");
    }
    let a = without_markup_exec(&t0);
    let b = without_urls_exec(&a);
    let t = squeeze_ws_exec(&b);
    if crate::memory::utf8_len_exec(&t) <= 50 {
        return string_of(t.as_slice());
    }
    let sp: Vec<char> = vec![' '];
    assert(sp@ =~= seq![' ']);
    let ws = text::split_exec(&t, &sp);
    let ghost wv = text::split(t@, seq![' ']);
    let title = fit_words_exec(&ws, Ghost(wv));
    if title.len() == 0 {
        let k = if t.len() < 45 {
            t.len()
        } else {
            45
        };
        let mut r = slice(&t, 0, k);
        push_str(&mut r, "...");
        return string_of(r.as_slice());
    }
    string_of(title.as_slice())
}


// ───────────────────────── remote records ─────────────────────────

/// `v.get(a).or_else(|| v.get(b))`.
pub open spec fn get_either(v: Json, a: Seq<char>, b: Seq<char>) -> Option<Json> {
    match v.get(a) {
        Some(x) => Some(x),
        None => v.get(b),
    }
}

pub open spec fn as_str_opt(o: Option<Json>) -> Option<Seq<char>> {
    match o {
        Some(Json::Str(s)) => Some(s),
        _ => None,
    }
}

pub open spec fn as_i64_opt(o: Option<Json>) -> Option<int> {
    match o {
        Some(x) => x.as_i64(),
        None => None,
    }
}

pub open spec fn str_or_empty(o: Option<Seq<char>>) -> Seq<char> {
    match o {
        Some(s) => s,
        None => seq![],
    }
}

pub open spec fn int_or_zero(o: Option<int>) -> int {
    match o {
        Some(n) => n,
        None => 0,
    }
}

pub(crate) fn get_either_exec<'a>(v: &'a JsonValue, a: &str, b: &str) -> (r: Option<&'a JsonValue>)
    ensures
        match r {
            Some(x) => get_either(v@, a@, b@) == Some(x@),
            None => get_either(v@, a@, b@) is None,
        },
{
    match v.get(a) {
        Some(x) => Some(x),
        None => v.get(b),
    }
}

pub(crate) fn str_of(o: Option<&JsonValue>) -> (r: Option<String>)
    ensures
        crate::settings::opt_string_view(r) == as_str_opt(match o {
            Some(x) => Some(x@),
            None => None,
        }),
{
    match o {
        Some(JsonValue::Str(s)) => Some(text::owned(s.as_str())),
        _ => None,
    }
}

pub(crate) fn i64_of(o: Option<&JsonValue>) -> (r: Option<i64>)
    ensures
        match r {
            Some(n) => as_i64_opt(match o {
                Some(x) => Some(x@),
                None => None,
            }) == Some(n as int),
            None => as_i64_opt(match o {
                Some(x) => Some(x@),
                None => None,
            }) is None,
        },
{
    match o {
        Some(x) => x.as_i64(),
        None => None,
    }
}

pub(crate) fn or_empty(o: Option<String>) -> (r: String)
    ensures
        r@ == str_or_empty(crate::settings::opt_string_view(o)),
{
    match o {
        Some(s) => s,
        None => String::new(),
    }
}

pub(crate) fn or_zero64(o: Option<i64>) -> (r: i64)
    ensures
        r == match o {
            Some(n) => n,
            None => 0,
        },
{
    match o {
        Some(n) => n,
        None => 0,
    }
}

pub open spec fn opt_i64_view(o: Option<i64>) -> Option<int> {
    match o {
        Some(n) => Some(n as int),
        None => None,
    }
}

/// A session record from the remote host (camelCase or snake_case names).
pub fn convert_ssh_session(v: &JsonValue) -> (r: SessionSummary)
    ensures
        r.id@ == str_or_empty(as_str_opt(get_either(v@, "id"@, "sessionId"@))),
        r.source@ == str_or_empty(as_str_opt(v@.get("source"@))),
        r.started_at == int_or_zero(as_i64_opt(get_either(v@, "startedAt"@, "started_at"@))),
        opt_i64_view(r.ended_at) == as_i64_opt(get_either(v@, "endedAt"@, "ended_at"@)),
        r.message_count == int_or_zero(as_i64_opt(get_either(v@, "messageCount"@, "message_count"@))),
        r.model@ == str_or_empty(as_str_opt(v@.get("model"@))),
        crate::settings::opt_string_view(r.title) == as_str_opt(v@.get("title"@)),
        r.preview@ == str_or_empty(as_str_opt(v@.get("preview"@))),
{
    SessionSummary {
        id: or_empty(str_of(get_either_exec(v, "id", "sessionId"))),
        source: or_empty(str_of(v.get("source"))),
        started_at: or_zero64(i64_of(get_either_exec(v, "startedAt", "started_at"))),
        ended_at: i64_of(get_either_exec(v, "endedAt", "ended_at")),
        message_count: or_zero64(i64_of(get_either_exec(v, "messageCount", "message_count"))),
        model: or_empty(str_of(v.get("model"))),
        title: str_of(v.get("title")),
        preview: or_empty(str_of(v.get("preview"))),
    }
}

/// A message record from the remote host.
pub fn convert_ssh_message(v: &JsonValue) -> (r: SessionMessage)
    ensures
        r.id == int_or_zero(as_i64_opt(v@.get("id"@))),
        r.role@ == str_or_empty(as_str_opt(v@.get("role"@))),
        r.content@ == str_or_empty(as_str_opt(v@.get("content"@))),
        r.timestamp == int_or_zero(as_i64_opt(v@.get("timestamp"@))),
{
    SessionMessage {
        id: or_zero64(i64_of(v.get("id"))),
        role: or_empty(str_of(v.get("role"))),
        content: or_empty(str_of(v.get("content"))),
        timestamp: or_zero64(i64_of(v.get("timestamp"))),
    }
}

/// A search hit from the remote host.
pub fn convert_ssh_search_result(v: &JsonValue) -> (r: SearchResult)
    ensures
        r.session_id@ == str_or_empty(as_str_opt(get_either(v@, "sessionId"@, "session_id"@))),
        crate::settings::opt_string_view(r.title) == as_str_opt(v@.get("title"@)),
        r.started_at == int_or_zero(as_i64_opt(get_either(v@, "startedAt"@, "started_at"@))),
        r.source@ == str_or_empty(as_str_opt(v@.get("source"@))),
        r.message_count == int_or_zero(as_i64_opt(get_either(v@, "messageCount"@, "message_count"@))),
        r.model@ == str_or_empty(as_str_opt(v@.get("model"@))),
        r.snippet@ == str_or_empty(as_str_opt(v@.get("snippet"@))),
{
    SearchResult {
        session_id: or_empty(str_of(get_either_exec(v, "sessionId", "session_id"))),
        title: str_of(v.get("title")),
        started_at: or_zero64(i64_of(get_either_exec(v, "startedAt", "started_at"))),
        source: or_empty(str_of(v.get("source"))),
        message_count: or_zero64(i64_of(get_either_exec(v, "messageCount", "message_count"))),
        model: or_empty(str_of(v.get("model"))),
        snippet: or_empty(str_of(v.get("snippet"))),
    }
}

/// A cached session from a remote session record.
pub fn convert_ssh_cached_session(v: &JsonValue) -> (r: CachedSession)
    ensures
        r.id@ == str_or_empty(as_str_opt(v@.get("id"@))),
        r.title@ == str_or_empty(as_str_opt(v@.get("title"@))),
        r.started_at == int_or_zero(as_i64_opt(get_either(v@, "startedAt"@, "started_at"@))),
        r.source@ == str_or_empty(as_str_opt(v@.get("source"@))),
        r.message_count == int_or_zero(as_i64_opt(get_either(v@, "messageCount"@, "message_count"@))),
        r.model@ == str_or_empty(as_str_opt(v@.get("model"@))),
{
    CachedSession {
        id: or_empty(str_of(v.get("id"))),
        title: or_empty(str_of(v.get("title"))),
        started_at: or_zero64(i64_of(get_either_exec(v, "startedAt", "started_at"))),
        source: or_empty(str_of(v.get("source"))),
        message_count: or_zero64(i64_of(get_either_exec(v, "messageCount", "message_count"))),
        model: or_empty(str_of(v.get("model"))),
    }
}

/// The `LIKE` pattern of a search: the query anywhere in the text.
pub fn like_pattern(query: &str) -> (r: String)
    ensures
        r@ == seq!['%'] + query@ + seq!['%'],
{
    let mut v: Vec<char> = vec!['%'];
    push_str(&mut v, query);
    v.push('%');
    assert(v@ =~= seq!['%'] + query@ + seq!['%']);
    string_of(v.as_slice())
}


// ───────────────────────── the session cache ─────────────────────────

pub type CView = (Seq<char>, Seq<char>, i64, Seq<char>, i64, Seq<char>);

pub open spec fn cached_view(c: CachedSession) -> CView {
    (c.id@, c.title@, c.started_at, c.source@, c.message_count, c.model@)
}

pub open spec fn cached_views(s: Seq<CachedSession>) -> Seq<CView> {
    s.map_values(|c: CachedSession| cached_view(c))
}

/// A session row read from the database.
pub struct SessionRow {
    pub id: String,
    pub started_at: i64,
    pub source: String,
    pub message_count: i64,
    pub model: String,
    pub title: Option<String>,
}

pub type RView = (Seq<char>, i64, Seq<char>, i64, Seq<char>, Option<Seq<char>>);

pub open spec fn row_view(r: SessionRow) -> RView {
    (r.id@, r.started_at, r.source@, r.message_count, r.model@, crate::settings::opt_string_view(r.title))
}

pub open spec fn row_views(s: Seq<SessionRow>) -> Seq<RView> {
    s.map_values(|r: SessionRow| row_view(r))
}

/// The sessions started after this time are read again: five minutes
/// before the last sync, or all of them before any sync.
pub fn sync_cutoff(last_sync: i64) -> (r: i64)
    ensures
        r == if last_sync > 0 {
            last_sync - 300
        } else {
            0
        },
{
    if last_sync > 0 {
        last_sync - 300
    } else {
        0
    }
}

/// The last position of `id`.
pub open spec fn last_index(ids: Seq<Seq<char>>, id: Seq<char>) -> Option<int>
    decreases ids.len(),
{
    if ids.len() == 0 {
        None
    } else if ids.last() == id {
        Some(ids.len() - 1)
    } else {
        last_index(ids.drop_last(), id)
    }
}

pub open spec fn ids_of(s: Seq<CView>) -> Seq<Seq<char>> {
    s.map_values(|c: CView| c.0)
}

/// The title of a new session: its own when not empty, else made from its
/// first user message, else `New conversation`.
pub open spec fn new_title(r: RView, first: Option<Seq<char>>) -> Seq<char> {
    match r.5 {
        Some(t) => if t.len() > 0 {
            t
        } else {
            match first {
                Some(c) => title_of(c),
                None => "New conversation"@,
            }
        },
        None => match first {
            Some(c) => title_of(c),
            None => "New conversation"@,
        },
    }
}

/// The cache after the rows read from the database: a known session takes
/// the new message count, an unknown one is added.
pub open spec fn merged(cache: Seq<CView>, ids: Seq<Seq<char>>, rows: Seq<RView>, firsts: Seq<Option<Seq<char>>>) -> Seq<CView>
    decreases rows.len(),
{
    if rows.len() == 0 {
        cache
    } else {
        let c = merged(cache, ids, rows.drop_last(), firsts.drop_last());
        let r = rows.last();
        match last_index(ids, r.0) {
            Some(k) => c.update(k, (c[k].0, c[k].1, c[k].2, c[k].3, r.3, c[k].5)),
            None => c.push((r.0, new_title(r, firsts.last()), r.1, r.2, r.3, r.4)),
        }
    }
}

pub proof fn lemma_last_index(ids: Seq<Seq<char>>, id: Seq<char>)
    ensures
        last_index(ids, id) matches Some(k) ==> 0 <= k < ids.len() && ids[k] == id,
        last_index(ids, id) is None ==> forall|j: int| 0 <= j < ids.len() ==> ids[j] != id,
    decreases ids.len(),
{
    if ids.len() > 0 && ids.last() != id {
        lemma_last_index(ids.drop_last(), id);
        assert forall|j: int| 0 <= j < ids.len() - 1 implies ids[j] == ids.drop_last()[j] by {}
    }
}

fn copy_cached(c: &CachedSession) -> (r: CachedSession)
    ensures
        cached_view(r) == cached_view(*c),
{
    CachedSession {
        id: text::owned(c.id.as_str()),
        title: text::owned(c.title.as_str()),
        started_at: c.started_at,
        source: text::owned(c.source.as_str()),
        message_count: c.message_count,
        model: text::owned(c.model.as_str()),
    }
}

fn last_index_exec(cache: &Vec<CachedSession>, n: usize, id: &str) -> (r: Option<usize>)
    requires
        n <= cache.len(),
    ensures
        match r {
            Some(k) => last_index(ids_of(cached_views(cache@.take(n as int))), id@) == Some(k as int),
            None => last_index(ids_of(cached_views(cache@.take(n as int))), id@) is None,
        },
{
    let ghost ids = ids_of(cached_views(cache@.take(n as int)));
    let mut k = n;
    assert(ids.take(k as int) =~= ids);
    while k > 0
        invariant
            k <= n <= cache.len(),
            ids == ids_of(cached_views(cache@.take(n as int))),
            last_index(ids, id@) == last_index(ids.take(k as int), id@),
        decreases k,
    {
        assert(ids.take(k as int).drop_last() =~= ids.take(k - 1));
        assert(ids.take(k as int).last() == cache@[k - 1].id@);
        if text::str_eq(cache[k - 1].id.as_str(), id) {
            return Some(k - 1);
        }
        k -= 1;
    }
    None
}

/// Applies the rows read from the database to the cache; `firsts` holds,
/// for each row, the first user message of its session when one was read.
pub fn merge_session_rows(cache: &mut Vec<CachedSession>, rows: &Vec<SessionRow>, firsts: &Vec<Option<String>>)
    requires
        firsts.len() == rows.len(),
    ensures
        cached_views(final(cache)@) == merged(
            cached_views(old(cache)@),
            ids_of(cached_views(old(cache)@)),
            row_views(rows@),
            firsts@.map_values(|o: Option<String>| crate::settings::opt_string_view(o)),
        ),
{
    let ghost c0 = cached_views(cache@);
    let ghost ids = ids_of(c0);
    let ghost rv = row_views(rows@);
    let ghost fv = firsts@.map_values(|o: Option<String>| crate::settings::opt_string_view(o));
    let n = cache.len();
    let mut i: usize = 0;
    assert(cache@.take(n as int) =~= cache@);
    while i < rows.len()
        invariant
            i <= rows.len(),
            firsts.len() == rows.len(),
            n == c0.len(),
            n <= cache.len(),
            ids == ids_of(c0),
            rv == row_views(rows@),
            fv == firsts@.map_values(|o: Option<String>| crate::settings::opt_string_view(o)),
            cached_views(cache@) == merged(c0, ids, rv.take(i as int), fv.take(i as int)),
            ids_of(cached_views(cache@.take(n as int))) == ids,
        decreases rows.len() - i,
    {
        proof {
            assert(rv.take(i + 1).drop_last() =~= rv.take(i as int));
            assert(fv.take(i + 1).drop_last() =~= fv.take(i as int));
            assert(rv.take(i + 1).last() == row_view(rows@[i as int]));
            assert(fv.take(i + 1).last() == crate::settings::opt_string_view(firsts@[i as int]));
        }
        let r = &rows[i];
        let ghost before = cached_views(cache@);
        match last_index_exec(cache, n, r.id.as_str()) {
            Some(k) => {
                proof {
                    lemma_last_index(ids, r.id@);
                }
                let mut e = copy_cached(&cache[k]);
                e.message_count = r.message_count;
                let ghost old_cache = cache@;
                cache.set(k, e);
                proof {
                    assert(cached_views(cache@) =~= before.update(
                        k as int,
                        (before[k as int].0, before[k as int].1, before[k as int].2, before[k as int].3, r.message_count, before[k as int].5),
                    ));
                    assert forall|j: int| 0 <= j < n implies #[trigger] ids_of(cached_views(cache@.take(n as int)))[j] == ids[j] by {
                        if j == k {
                        } else {
                            assert(cache@[j] == old_cache[j]);
                        }
                    }
                    assert(ids_of(cached_views(cache@.take(n as int))) =~= ids);
                }
            },
            None => {
                let title = match &r.title {
                    Some(t) => if t.as_str().unicode_len() > 0 {
                        text::owned(t.as_str())
                    } else {
                        match &firsts[i] {
                            Some(c) => generate_title(c.as_str()),
                            None => String::from_str("New conversation"),
                        }
                    },
                    None => match &firsts[i] {
                        Some(c) => generate_title(c.as_str()),
                        None => String::from_str("New conversation"),
                    },
                };
                let e = CachedSession {
                    id: text::owned(r.id.as_str()),
                    title,
                    started_at: r.started_at,
                    source: text::owned(r.source.as_str()),
                    message_count: r.message_count,
                    model: text::owned(r.model.as_str()),
                };
                let ghost old_cache = cache@;
                cache.push(e);
                proof {
                    assert(cached_views(cache@) =~= before.push(cached_view(e)));
                    assert(cache@.take(n as int) =~= old_cache.take(n as int));
                }
            },
        }
        i += 1;
    }
    assert(rv.take(rows.len() as int) =~= rv);
    assert(fv.take(rows.len() as int) =~= fv);
}

/// The position of the first element started earlier than `key`.
pub open spec fn first_earlier(s: Seq<CView>, key: i64) -> int
    decreases s.len(),
{
    if s.len() == 0 {
        0
    } else if s[0].2 < key {
        0
    } else {
        1 + first_earlier(s.drop_first(), key)
    }
}

/// Sessions newest first, those started at the same time in their order
/// (a stable sort by start time, descending).
pub open spec fn newest_first(s: Seq<CView>) -> Seq<CView>
    decreases s.len(),
{
    if s.len() == 0 {
        seq![]
    } else {
        let sorted = newest_first(s.drop_last());
        sorted.insert(first_earlier(sorted, s.last().2), s.last())
    }
}

/// The sessions started at `k`.
pub open spec fn started_at(k: i64) -> spec_fn(CView) -> bool {
    |x: CView| x.2 == k
}

/// A filter keeps nothing of a run none of whose items it accepts.
proof fn lemma_filter_none(s: Seq<CView>, pred: spec_fn(CView) -> bool)
    requires
        forall|i: int| 0 <= i < s.len() ==> !pred(#[trigger] s[i]),
    ensures
        s.filter(pred) == Seq::<CView>::empty(),
    decreases s.len(),
{
    reveal(Seq::filter);
    if s.len() > 0 {
        assert forall|i: int| 0 <= i < s.drop_last().len() implies !pred(#[trigger] s.drop_last()[i]) by {
            assert(s.drop_last()[i] == s[i]);
        }
        lemma_filter_none(s.drop_last(), pred);
        assert(!pred(s[s.len() - 1]));
    }
}

/// Listing sessions newest first is a stable sort by start time: the same
/// sessions come out, each started no earlier than the next, and sessions
/// started at the same time keep the order they had.
pub proof fn law_sessions_newest_first(s: Seq<CView>)
    ensures
        newest_first(s).to_multiset() == s.to_multiset(),
        forall|i: int, j: int|
            0 <= i < j < newest_first(s).len() ==> #[trigger] newest_first(s)[i].2 >= #[trigger] newest_first(s)[j].2,
        forall|k: i64| #[trigger] newest_first(s).filter(started_at(k)) == s.filter(started_at(k)),
    decreases s.len(),
{
    reveal(Seq::filter);
    if s.len() == 0 {
        assert(newest_first(s) =~= s);
    } else {
        let t = s.drop_last();
        let x = s.last();
        law_sessions_newest_first(t);
        let r0 = newest_first(t);
        lemma_first_earlier(r0, x.2);
        let p = first_earlier(r0, x.2);
        let r = r0.insert(p, x);
        assert(newest_first(s) == r);
        assert(t.push(x) =~= s);
        // the same sessions
        vstd::seq_lib::to_multiset_insert(r0, p, x);
        vstd::seq_lib::to_multiset_build(t, x);
        // newest first
        assert forall|i: int, j: int| 0 <= i < j < r.len() implies #[trigger] r[i].2 >= #[trigger] r[j].2 by {
            if p < r0.len() {
                assert(r0[p].2 < x.2);
            }
            if i < p {
                assert(r[i] == r0[i]);
                if j == p {
                } else if j < p {
                    assert(r[j] == r0[j]);
                } else {
                    assert(r[j] == r0[j - 1]);
                }
            } else if i == p {
                assert(r[j] == r0[j - 1]);
                assert(r0[p].2 >= r0[j - 1].2 || p == j - 1);
            } else {
                assert(r[i] == r0[i - 1]);
                assert(r[j] == r0[j - 1]);
            }
        }
        // ties keep their order
        assert forall|k: i64| #[trigger] r.filter(started_at(k)) == s.filter(started_at(k)) by {
            let pred = started_at(k);
            let a = r0.take(p);
            let b = r0.skip(p);
            assert(r0 =~= a + b);
            assert(r =~= a + seq![x] + b);
            Seq::filter_distributes_over_add(a, b, pred);
            Seq::filter_distributes_over_add(a + seq![x], b, pred);
            Seq::filter_distributes_over_add(a, seq![x], pred);
            assert(seq![x].drop_last() =~= Seq::<CView>::empty());
            assert(Seq::<CView>::empty().filter(pred) == Seq::<CView>::empty());
            assert(seq![x].last() == x);
            assert(seq![x].filter(pred) == if pred(x) {
                Seq::<CView>::empty().push(x)
            } else {
                Seq::<CView>::empty()
            });
            Seq::lemma_filter_push(t, x, pred);
            assert(r0.filter(pred) == t.filter(pred));
            assert(r0.filter(pred) == a.filter(pred) + b.filter(pred));
            assert(r.filter(pred) == a.filter(pred) + seq![x].filter(pred) + b.filter(pred));
            if k == x.2 {
                assert forall|i: int| 0 <= i < b.len() implies !pred(#[trigger] b[i]) by {
                    assert(b[i] == r0[p + i]);
                    assert(r0[p].2 < x.2);
                    if i > 0 {
                        assert(r0[p].2 >= r0[p + i].2);
                    }
                }
                lemma_filter_none(b, pred);
                assert(a.filter(pred) + seq![x] + Seq::<CView>::empty() =~= (a.filter(pred) + Seq::<CView>::empty()).push(x));
            } else {
                assert(a.filter(pred) + Seq::<CView>::empty() + b.filter(pred) =~= a.filter(pred) + b.filter(pred));
            }
        }
    }
}

pub proof fn lemma_first_earlier(s: Seq<CView>, key: i64)
    ensures
        0 <= first_earlier(s, key) <= s.len(),
        forall|j: int| 0 <= j < first_earlier(s, key) ==> s[j].2 >= key,
        first_earlier(s, key) < s.len() ==> s[first_earlier(s, key)].2 < key,
    decreases s.len(),
{
    if s.len() > 0 && s[0].2 >= key {
        lemma_first_earlier(s.drop_first(), key);
        assert forall|j: int| 0 <= j < first_earlier(s, key) implies s[j].2 >= key by {
            if j > 0 {
                assert(s[j] == s.drop_first()[j - 1]);
            }
        }
    }
}

pub proof fn lemma_newest_first_len(s: Seq<CView>)
    ensures
        newest_first(s).len() == s.len(),
    decreases s.len(),
{
    if s.len() > 0 {
        lemma_newest_first_len(s.drop_last());
        lemma_first_earlier(newest_first(s.drop_last()), s.last().2);
    }
}

/// Orders the cache newest first.
pub fn sort_sessions(sessions: Vec<CachedSession>) -> (r: Vec<CachedSession>)
    ensures
        cached_views(r@) == newest_first(cached_views(sessions@)),
{
    let ghost sv = cached_views(sessions@);
    let mut out: Vec<CachedSession> = Vec::new();
    let mut rest = sessions;
    let ghost mut i: int = 0;
    assert(sv.skip(0) =~= sv);
    assert(cached_views(out@) =~= newest_first(sv.take(0)));
    while rest.len() > 0
        invariant
            0 <= i <= sv.len(),
            rest@.len() + i == sv.len(),
            cached_views(rest@) == sv.skip(i),
            cached_views(out@) == newest_first(sv.take(i)),
        decreases rest.len(),
    {
        let ghost old_rest = rest@;
        let x = rest.remove(0);
        proof {
            assert(cached_views(old_rest)[0] == cached_view(x));
            assert(sv.skip(i)[0] == cached_view(x));
            assert(sv.take(i + 1).drop_last() =~= sv.take(i));
            assert(sv.take(i + 1).last() == cached_view(x));
            assert forall|j: int| 0 <= j < rest@.len() implies #[trigger] cached_views(rest@)[j] == sv.skip(i + 1)[j] by {
                assert(rest@[j] == old_rest[j + 1]);
                assert(cached_views(old_rest)[j + 1] == sv.skip(i)[j + 1]);
            }
            assert(cached_views(rest@) =~= sv.skip(i + 1));
            lemma_first_earlier(cached_views(out@), x.started_at);
        }
        let mut k: usize = 0;
        assert(cached_views(out@).skip(0) =~= cached_views(out@));
        while k < out.len() && out[k].started_at >= x.started_at
            invariant
                k <= out.len(),
                forall|j: int| 0 <= j < k ==> out@[j].started_at >= x.started_at,
                first_earlier(cached_views(out@), x.started_at) == k + first_earlier(cached_views(out@).skip(k as int), x.started_at),
            decreases out.len() - k,
        {
            assert(cached_views(out@).skip(k as int).drop_first() =~= cached_views(out@).skip(k + 1));
            k += 1;
        }
        proof {
            assert(first_earlier(cached_views(out@).skip(k as int), x.started_at) == 0);
        }
        let ghost before = cached_views(out@);
        out.insert(k, x);
        proof {
            assert(cached_views(out@) =~= before.insert(k as int, cached_view(x)));
            i = i + 1;
        }
    }
    assert(sv.take(sv.len() as int) =~= sv);
    out
}


/// The cached sessions that the rows did not refresh, each id once.
pub fn stale_ids(cache: &Vec<CachedSession>, rows: &Vec<SessionRow>) -> (r: Vec<String>)
    ensures
        forall|x: Seq<char>| #![trigger strings_view(r@).contains(x)]
            strings_view(r@).contains(x) <==> (ids_of(cached_views(cache@)).contains(x)
                && !row_views(rows@).map_values(|v: RView| v.0).contains(x)),
        strings_view(r@).no_duplicates(),
{
    let ghost ids = ids_of(cached_views(cache@));
    let ghost rids = row_views(rows@).map_values(|v: RView| v.0);
    let mut out: Vec<String> = Vec::new();
    let mut i: usize = 0;
    while i < cache.len()
        invariant
            i <= cache.len(),
            ids == ids_of(cached_views(cache@)),
            rids == row_views(rows@).map_values(|v: RView| v.0),
            forall|x: Seq<char>| #![trigger strings_view(out@).contains(x)]
                strings_view(out@).contains(x) <==> (ids.take(i as int).contains(x)
                    && !rids.contains(x)),
            strings_view(out@).no_duplicates(),
        decreases cache.len() - i,
    {
        let id = cache[i].id.as_str();
        assert(ids[i as int] == id@);
        let mut in_rows = false;
        let mut j: usize = 0;
        while j < rows.len()
            invariant
                j <= rows.len(),
                rids == row_views(rows@).map_values(|v: RView| v.0),
                in_rows == exists|k: int| 0 <= k < j && rids[k] == id@,
            decreases rows.len() - j,
        {
            if text::str_eq(rows[j].id.as_str(), id) {
                in_rows = true;
            }
            assert(rids[j as int] == rows@[j as int].id@);
            j += 1;
        }
        let ghost ov = strings_view(out@);
        let mut seen = false;
        let mut k: usize = 0;
        while k < out.len()
            invariant
                k <= out.len(),
                ov == strings_view(out@),
                seen == exists|m: int| 0 <= m < k && ov[m] == id@,
            decreases out.len() - k,
        {
            if text::str_eq(out[k].as_str(), id) {
                seen = true;
            }
            assert(ov[k as int] == out@[k as int]@);
            k += 1;
        }
        proof {
            broadcast use vstd::seq_lib::group_seq_properties;
            assert(ids.take(i + 1) =~= ids.take(i as int).push(id@));
            if in_rows {
                let k = choose|k: int| 0 <= k < rows.len() && rids[k] == id@;
                assert(rids.contains(id@));
            } else {
                assert forall|k: int| 0 <= k < rids.len() implies rids[k] != id@ by {}
                assert(!rids.contains(id@));
            }
            if seen {
                let m = choose|m: int| 0 <= m < out.len() && ov[m] == id@;
                assert(ov.contains(id@));
            } else {
                assert(!ov.contains(id@));
            }
        }
        if !in_rows && !seen {
            out.push(text::owned(id));
            proof {
                assert(strings_view(out@) =~= ov.push(id@));
            }
        }
        i += 1;
    }
    assert(ids.take(cache.len() as int) =~= ids);
    out
}

/// The count of the last entry for `id`.
pub open spec fn count_for(counts: Seq<(Seq<char>, i64)>, id: Seq<char>) -> Option<i64>
    decreases counts.len(),
{
    if counts.len() == 0 {
        None
    } else if counts.last().0 == id {
        Some(counts.last().1)
    } else {
        count_for(counts.drop_last(), id)
    }
}

fn count_lookup(counts: &Vec<(String, i64)>, id: &str) -> (r: Option<i64>)
    ensures
        r == count_for(counts@.map_values(|p: (String, i64)| (p.0@, p.1)), id@),
{
    let ghost cv = counts@.map_values(|p: (String, i64)| (p.0@, p.1));
    let mut j = counts.len();
    assert(cv.take(j as int) =~= cv);
    while j > 0
        invariant
            j <= counts.len(),
            cv == counts@.map_values(|p: (String, i64)| (p.0@, p.1)),
            count_for(cv, id@) == count_for(cv.take(j as int), id@),
        decreases j,
    {
        assert(cv.take(j as int).drop_last() =~= cv.take(j - 1));
        assert(cv.take(j as int).last() == (counts@[j - 1].0@, counts@[j - 1].1));
        if text::str_eq(counts[j - 1].0.as_str(), id) {
            return Some(counts[j - 1].1);
        }
        j -= 1;
    }
    None
}

/// Sets the message counts read again from the database.
pub fn apply_counts(cache: &mut Vec<CachedSession>, counts: &Vec<(String, i64)>)
    ensures
        final(cache)@.len() == old(cache)@.len(),
        forall|k: int| 0 <= k < old(cache)@.len() ==> #[trigger] cached_view(final(cache)@[k]) == {
            let c = cached_view(old(cache)@[k]);
            match count_for(counts@.map_values(|p: (String, i64)| (p.0@, p.1)), c.0) {
                Some(n) => (c.0, c.1, c.2, c.3, n, c.5),
                None => c,
            }
        },
{
    let ghost cv = counts@.map_values(|p: (String, i64)| (p.0@, p.1));
    let ghost c0 = cache@;
    let mut i: usize = 0;
    while i < cache.len()
        invariant
            i <= cache.len(),
            cache@.len() == c0.len(),
            cv == counts@.map_values(|p: (String, i64)| (p.0@, p.1)),
            forall|k: int| i <= k < c0.len() ==> cache@[k] == c0[k],
            forall|k: int| 0 <= k < i ==> #[trigger] cached_view(cache@[k]) == {
                let c = cached_view(c0[k]);
                match count_for(cv, c.0) {
                    Some(n) => (c.0, c.1, c.2, c.3, n, c.5),
                    None => c,
                }
            },
        decreases cache.len() - i,
    {
        let ghost before = cache@;
        match count_lookup(counts, cache[i].id.as_str()) {
            Some(n) => {
                let mut e = copy_cached(&cache[i]);
                e.message_count = n;
                cache.set(i, e);
            },
            None => {},
        }
        assert forall|k: int| 0 <= k < c0.len() && k != i implies cache@[k] == before[k] by {}
        i += 1;
    }
}


/// A page of the cached sessions: `limit` of them (fifty when none is
/// given) from position `offset` (the first when none is given).
pub fn list_cached_sessions(sessions: &Vec<CachedSession>, limit: Option<u32>, offset: Option<u32>) -> (r: Vec<CachedSession>)
    ensures
        ({
            let off: int = match offset { Some(o) => o as int, None => 0 };
            let lim: int = match limit { Some(l) => l as int, None => 50 };
            let start: int = if off < sessions@.len() { off } else { sessions@.len() as int };
            let end: int = if start + lim < sessions@.len() { start + lim } else { sessions@.len() as int };
            cached_views(r@) == cached_views(sessions@).subrange(start, end)
        }),
{
    let off: usize = match offset { Some(o) => o as usize, None => 0 };
    let lim: usize = match limit { Some(l) => l as usize, None => 50 };
    let start: usize = if off < sessions.len() { off } else { sessions.len() };
    let end: usize = if lim < sessions.len() - start { start + lim } else { sessions.len() };
    let ghost want = cached_views(sessions@).subrange(start as int, end as int);
    let mut out: Vec<CachedSession> = Vec::new();
    let mut i: usize = start;
    while i < end
        invariant
            start <= i <= end <= sessions.len(),
            want == cached_views(sessions@).subrange(start as int, end as int),
            cached_views(out@) =~= cached_views(sessions@).subrange(start as int, i as int),
        decreases end - i,
    {
        let c = copy_cached(&sessions[i]);
        let ghost before = out@;
        out.push(c);
        assert(out@ == before.push(c));
        assert(cached_views(out@) =~= cached_views(before).push(cached_view(c)));
        assert(cached_views(out@) =~= cached_views(sessions@).subrange(start as int, i + 1));
        i += 1;
    }
    out
}

/// Gives the first cached session with this id a new title. Whether one
/// was found, so that the cache is written back only then.
pub fn update_session_title(sessions: &mut Vec<CachedSession>, session_id: &str, title: &str) -> (found: bool)
    ensures
        final(sessions)@.len() == old(sessions)@.len(),
        found == ids_of(cached_views(old(sessions)@)).contains(session_id@),
        found ==> exists|k: int| #![trigger final(sessions)@[k]]
            0 <= k < old(sessions)@.len()
            && ids_of(cached_views(old(sessions)@))[k] == session_id@
            && (forall|m: int| 0 <= m < k ==> ids_of(cached_views(old(sessions)@))[m] != session_id@)
            && cached_view(final(sessions)@[k]) == {
                let c = cached_view(old(sessions)@[k]);
                (c.0, title@, c.2, c.3, c.4, c.5)
            }
            && (forall|m: int| 0 <= m < old(sessions)@.len() && m != k ==> #[trigger] final(sessions)@[m] == old(sessions)@[m]),
        !found ==> final(sessions)@ == old(sessions)@,
{
    let ghost ids = ids_of(cached_views(sessions@));
    let mut i: usize = 0;
    while i < sessions.len()
        invariant
            i <= sessions.len(),
            sessions@ == old(sessions)@,
            ids == ids_of(cached_views(sessions@)),
            forall|m: int| 0 <= m < i ==> ids[m] != session_id@,
        decreases sessions.len() - i,
    {
        if text::str_eq(sessions[i].id.as_str(), session_id) {
            let ghost before = sessions@;
            let mut e = copy_cached(&sessions[i]);
            e.title = text::owned(title);
            sessions.set(i, e);
            proof {
                assert(ids[i as int] == session_id@);
                assert(ids.contains(session_id@));
                assert(forall|m: int| 0 <= m < before.len() && m != i ==> #[trigger] sessions@[m] == before[m]);
                assert(cached_view(sessions@[i as int]).1 == title@);
            }
            return true;
        }
        i += 1;
    }
    proof {
        assert forall|m: int| 0 <= m < ids.len() implies ids[m] != session_id@ by {}
    }
    false
}

} // verus!
