//! The chat engine's decisions: where requests go and with which headers,
//! the request body and the user's content with attachments, the decoding
//! of the reply stream, and the command line and output of the CLI fallback.
use vstd::prelude::*;
use crate::config::ConnectionConfig;
use crate::json::{entries_view, items_view, Json, JsonValue};
use crate::kv::StrMap;
use crate::json::json_parse;
use crate::sse::{delta_content, number_text, opt_u64, or_zero, tool_text, ParsedUsage};
use crate::sse::opt_view as sse_opt_view;
use crate::text::{chars_of, push_all, push_str, slice, string_of, trim};
use crate::text;

verus! {

/// The local API server.
pub open spec fn local_api_url() -> Seq<char> {
    "http://127.0.0.1:8642"@
}

// ───────────────────────── URLs ─────────────────────────

/// `s` without its trailing `/` characters.
pub open spec fn trim_slashes(s: Seq<char>) -> Seq<char>
    decreases s.len(),
{
    if s.len() > 0 && s.last() == '/' {
        trim_slashes(s.drop_last())
    } else {
        s
    }
}

/// Ends with `/v1`, the `v` in either case (what `to_lowercase().ends_with("/v1")`
/// accepts: no other character lowercases to `/`, `v` or `1`).
pub open spec fn ends_with_v1(s: Seq<char>) -> bool {
    s.len() >= 3 && s[s.len() - 3] == '/' && (s[s.len() - 2] == 'v' || s[s.len() - 2] == 'V')
        && s[s.len() - 1] == '1'
}

/// A remote URL as entered, trimmed, without trailing slashes and without a
/// final `/v1`.
pub open spec fn normalised_url(raw: Seq<char>) -> Seq<char> {
    let u = trim_slashes(trim(raw));
    if ends_with_v1(u) {
        trim_slashes(u.take(u.len() - 3))
    } else {
        u
    }
}

fn trim_slashes_exec(v: &Vec<char>, hi: usize) -> (r: usize)
    requires
        hi <= v.len(),
    ensures
        r <= hi,
        v@.take(r as int) == trim_slashes(v@.take(hi as int)),
{
    let mut k = hi;
    while k > 0 && v[k - 1] == '/'
        invariant
            k <= hi <= v.len(),
            trim_slashes(v@.take(k as int)) == trim_slashes(v@.take(hi as int)),
        decreases k,
    {
        assert(v@.take(k as int).drop_last() =~= v@.take(k - 1));
        k -= 1;
    }
    k
}

/// Normalises a user-entered remote URL: trims it, strips trailing slashes
/// and a final `/v1`.
pub fn normalise_remote_url(raw: &str) -> (r: String)
    ensures
        r@ == normalised_url(raw@),
{
    let c = chars_of(raw);
    let t = text::trim_vec(&c);
    assert(t@.take(t.len() as int) =~= t@);
    let a = trim_slashes_exec(&t, t.len());
    let ghost u = t@.take(a as int);
    if a >= 3 && t[a - 3] == '/' && (t[a - 2] == 'v' || t[a - 2] == 'V') && t[a - 1] == '1' {
        let b = trim_slashes_exec(&t, a - 3);
        assert(u.take(u.len() - 3) =~= t@.take(a - 3));
        string_of(slice(&t, 0, b).as_slice())
    } else {
        string_of(slice(&t, 0, a).as_slice())
    }
}

/// The API base URL of a connection: the tunnel's local end for SSH, the
/// normalised remote URL (the local server when none is set) for remote,
/// the local server otherwise.
pub open spec fn api_url_of(conn: ConnectionConfig) -> Seq<char> {
    if conn.mode@ == "remote"@ {
        normalised_url(if conn.remote_url@.len() == 0 {
            local_api_url()
        } else {
            conn.remote_url@
        })
    } else {
        local_api_url()
    }
}

pub fn resolve_api_url(conn: &ConnectionConfig) -> (r: String)
    ensures
        r@ == api_url_of(*conn),
{
    if text::str_eq(conn.mode.as_str(), "remote") {
        if conn.remote_url.as_str().unicode_len() == 0 {
            normalise_remote_url("http://127.0.0.1:8642")
        } else {
            normalise_remote_url(conn.remote_url.as_str())
        }
    } else {
        String::from_str("http://127.0.0.1:8642")
    }
}

/// Whether chat goes through the API: always in remote or SSH mode, and
/// locally when the local API server answers.
pub fn use_api(conn: &ConnectionConfig, api_ready: bool) -> (b: bool)
    ensures
        b == (conn.mode@ == "remote"@ || conn.mode@ == "ssh"@ || api_ready),
{
    crate::config::is_remote_mode(conn) || api_ready
}

// ───────────────────────── headers ─────────────────────────

/// The shared chat state: whether the user cancelled, and the API key read
/// from the remote host when the SSH tunnel started.
pub struct ChatState {
    pub cancel_token: bool,
    pub ssh_remote_api_key: String,
}

impl Default for ChatState {
    fn default() -> (r: Self)
        ensures
            !r.cancel_token,
            r.ssh_remote_api_key@ == Seq::<char>::empty(),
    {
        ChatState { cancel_token: false, ssh_remote_api_key: String::new() }
    }
}

/// The key that authorizes requests in each mode: the remote host's key over
/// SSH, the configured key for remote, the API server key locally.
pub open spec fn auth_key(conn: ConnectionConfig, state: ChatState, local_key: Seq<char>) -> Seq<char> {
    if conn.mode@ == "ssh"@ {
        state.ssh_remote_api_key@
    } else if conn.mode@ == "remote"@ {
        conn.api_key@
    } else {
        local_key
    }
}

/// The request headers: JSON content and, when there is a key, a bearer
/// authorization; without connection settings, JSON content alone.
pub open spec fn auth_headers(conn: Option<ConnectionConfig>, state: ChatState, local_key: Seq<char>) -> Map<
    Seq<char>,
    Seq<char>,
> {
    let base = Map::empty().insert("Content-Type"@, "application/json"@);
    match conn {
        None => base,
        Some(c) => {
            let k = auth_key(c, state, local_key);
            if k.len() > 0 {
                base.insert("Authorization"@, "Bearer "@ + k)
            } else {
                base
            }
        },
    }
}

/// Builds the request headers; `local_key` is the profile's API server key.
pub fn build_auth_headers(conn: Option<&ConnectionConfig>, state: &ChatState, local_key: &str) -> (r:
    StrMap)
    ensures
        r@ == auth_headers(
            match conn {
                Some(c) => Some(*c),
                None => None,
            },
            *state,
            local_key@,
        ),
{
    let mut h = StrMap::new();
    h.insert(String::from_str("Content-Type"), String::from_str("application/json"));
    let c = match conn {
        None => {
            return h;
        },
        Some(c) => c,
    };
    let key: &str = if text::str_eq(c.mode.as_str(), "ssh") {
        state.ssh_remote_api_key.as_str()
    } else if text::str_eq(c.mode.as_str(), "remote") {
        c.api_key.as_str()
    } else {
        local_key
    };
    if key.unicode_len() > 0 {
        h.insert(String::from_str("Authorization"), text::concat2("Bearer ", key));
    }
    h
}

// ───────────────────────── text escapes ─────────────────────────

/// An XML attribute character escaped.
pub open spec fn xml_escape_char(c: char) -> Seq<char> {
    if c == '&' {
        "&amp;"@
    } else if c == '"' {
        "&quot;"@
    } else if c == '<' {
        "&lt;"@
    } else if c == '>' {
        "&gt;"@
    } else {
        seq![c]
    }
}

pub open spec fn xml_escaped(s: Seq<char>) -> Seq<char>
    decreases s.len(),
{
    if s.len() == 0 {
        seq![]
    } else {
        xml_escaped(s.drop_last()) + xml_escape_char(s.last())
    }
}

/// Escapes `&`, `"`, `<` and `>` for an XML attribute value.
pub fn escape_xml_attr(s: &str) -> (r: String)
    ensures
        r@ == xml_escaped(s@),
{
    let c = chars_of(s);
    let mut r: Vec<char> = Vec::new();
    let mut i: usize = 0;
    while i < c.len()
        invariant
            i <= c.len(),
            c@ == s@,
            r@ == xml_escaped(c@.take(i as int)),
        decreases c.len() - i,
    {
        assert(c@.take(i + 1).drop_last() =~= c@.take(i as int));
        let x = c[i];
        if x == '&' {
            push_str(&mut r, "&amp;");
        } else if x == '"' {
            push_str(&mut r, "&quot;");
        } else if x == '<' {
            push_str(&mut r, "&lt;");
        } else if x == '>' {
            push_str(&mut r, "&gt;");
        } else {
            r.push(x);
        }
        assert(r@ =~= xml_escaped(c@.take(i + 1)));
        i += 1;
    }
    assert(c@.take(c.len() as int) =~= c@);
    string_of(r.as_slice())
}

/// A digit or `;`: `[0-9;]`.
pub open spec fn is_sgr_char(c: char) -> bool {
    ('0' <= c && c <= '9') || c == ';'
}

pub open spec fn sgr_run(s: Seq<char>) -> nat
    decreases s.len(),
{
    if s.len() > 0 && is_sgr_char(s[0]) {
        1 + sgr_run(s.drop_first())
    } else {
        0
    }
}

/// The length of a colour sequence `\x1b\[[0-9;]*m` at the start of `s`.
pub open spec fn ansi_len(s: Seq<char>) -> Option<int> {
    if s.len() >= 2 && s[0] == '\u{1b}' && s[1] == '[' {
        let n = sgr_run(s.skip(2)) as int;
        if 2 + n < s.len() && s[2 + n] == 'm' {
            Some(3 + n)
        } else {
            None
        }
    } else {
        None
    }
}

/// `s` without its terminal colour sequences.
pub open spec fn ansi_stripped(s: Seq<char>) -> Seq<char>
    decreases s.len(),
{
    if s.len() == 0 {
        seq![]
    } else {
        match ansi_len(s) {
            Some(n) => if 0 < n <= s.len() {
                ansi_stripped(s.skip(n))
            } else {
                seq![]
            },
            None => seq![s[0]] + ansi_stripped(s.drop_first()),
        }
    }
}

pub proof fn lemma_sgr_run(s: Seq<char>, k: int)
    requires
        0 <= k <= s.len(),
        forall|j: int| 0 <= j < k ==> is_sgr_char(#[trigger] s[j]),
        k == s.len() || !is_sgr_char(s[k]),
    ensures
        sgr_run(s) == k,
    decreases k,
{
    if k > 0 {
        let t = s.drop_first();
        assert forall|j: int| 0 <= j < k - 1 implies is_sgr_char(#[trigger] t[j]) by {
            assert(t[j] == s[j + 1]);
        }
        lemma_sgr_run(t, k - 1);
    }
}

/// Removes terminal colour sequences (`ESC [ digits-and-semicolons m`).
pub fn strip_ansi(s: &str) -> (r: String)
    ensures
        r@ == ansi_stripped(s@),
{
    let c = chars_of(s);
    let mut r: Vec<char> = Vec::new();
    let mut i: usize = 0;
    assert(c@.skip(0) =~= c@);
    while i < c.len()
        invariant
            i <= c.len(),
            c@ == s@,
            ansi_stripped(s@) == r@ + ansi_stripped(c@.skip(i as int)),
        decreases c.len() - i,
    {
        let ghost t = c@.skip(i as int);
        let mut n: Option<usize> = None;
        if i + 1 < c.len() && c[i] == '\u{1b}' && c[i + 1] == '[' {
            let mut e = i + 2;
            while e < c.len() && (('0' <= c[e] && c[e] <= '9') || c[e] == ';')
                invariant
                    i + 2 <= e <= c.len(),
                    forall|j: int| i + 2 <= j < e ==> is_sgr_char(#[trigger] c@[j]),
                decreases c.len() - e,
            {
                e += 1;
            }
            proof {
                let u = t.skip(2);
                assert forall|j: int| 0 <= j < e - i - 2 implies is_sgr_char(#[trigger] u[j]) by {
                    assert(u[j] == c@[i + 2 + j]);
                }
                if e < c.len() {
                    assert(u[e - i - 2] == c@[e as int]);
                }
                lemma_sgr_run(u, e - i - 2);
            }
            if e < c.len() && c[e] == 'm' {
                n = Some(e + 1 - i);
            }
        }
        match n {
            Some(k) => {
                assert(t.skip(k as int) =~= c@.skip(i + k));
                i = i + k;
            },
            None => {
                r.push(c[i]);
                assert(t.drop_first() =~= c@.skip(i + 1));
                i += 1;
            },
        }
    }
    assert(c@.skip(c.len() as int).len() == 0);
    assert(r@ =~= r@ + ansi_stripped(c@.skip(c.len() as int)));
    string_of(r.as_slice())
}


// ───────────────────────── user content ─────────────────────────

/// `a.get(k).and_then(|v| v.as_str())`.
pub open spec fn str_member(a: Json, k: Seq<char>) -> Option<Seq<char>> {
    match a.get(k) {
        Some(Json::Str(s)) => Some(s),
        _ => None,
    }
}

pub open spec fn str_or(o: Option<Seq<char>>, d: Seq<char>) -> Seq<char> {
    match o {
        Some(s) => s,
        None => d,
    }
}

pub open spec fn kind_is(a: Json, k: Seq<char>) -> bool {
    str_member(a, "kind"@) == Some(k)
}

/// A path reference with a non-empty path.
pub open spec fn is_path_ref(a: Json) -> bool {
    kind_is(a, "path-ref"@) && (str_member(a, "path"@) matches Some(p) && p.len() > 0)
}

/// An image with a non-empty data URL.
pub open spec fn is_image(a: Json) -> bool {
    kind_is(a, "image"@) && (str_member(a, "dataUrl"@) matches Some(d) && d.len() > 0)
}

/// A text file inlined as `<file name=".." mime="..">` around its text;
/// `esc` says whether name and type are XML-escaped.
pub open spec fn file_block(a: Json, esc: bool) -> Option<Seq<char>> {
    match str_member(a, "text"@) {
        Some(t) => {
            let name = str_or(str_member(a, "name"@), "file"@);
            let mime = str_or(str_member(a, "mime"@), "text/plain"@);
            let (n, m) = if esc {
                (xml_escaped(name), xml_escaped(mime))
            } else {
                (name, mime)
            };
            Some("<file name=\""@ + n + "\" mime=\""@ + m + "\">\n"@ + t + "\n</file>"@)
        },
        None => None,
    }
}

/// The inlined text files among the attachments, in order.
pub open spec fn file_blocks(atts: Seq<Json>, esc: bool) -> Seq<Seq<char>>
    decreases atts.len(),
{
    if atts.len() == 0 {
        seq![]
    } else {
        let prev = file_blocks(atts.drop_last(), esc);
        let a = atts.last();
        if kind_is(a, "text-file"@) && file_block(a, esc) is Some {
            prev.push(file_block(a, esc)->0)
        } else {
            prev
        }
    }
}

/// `[Attached file: path]` for each path reference, in order.
pub open spec fn path_lines(atts: Seq<Json>) -> Seq<Seq<char>>
    decreases atts.len(),
{
    if atts.len() == 0 {
        seq![]
    } else {
        let prev = path_lines(atts.drop_last());
        let a = atts.last();
        if is_path_ref(a) {
            prev.push("[Attached file: "@ + str_member(a, "path"@)->0 + "]"@)
        } else {
            prev
        }
    }
}

/// `{"type": "image_url", "image_url": {"url": data_url}}`.
pub open spec fn image_part(url: Seq<char>) -> Json {
    Json::Object(
        seq![
            ("type"@, Json::Str("image_url"@)),
            ("image_url"@, Json::Object(seq![("url"@, Json::Str(url))])),
        ],
    )
}

pub open spec fn image_parts(atts: Seq<Json>) -> Seq<Json>
    decreases atts.len(),
{
    if atts.len() == 0 {
        seq![]
    } else {
        let prev = image_parts(atts.drop_last());
        let a = atts.last();
        if is_image(a) {
            prev.push(image_part(str_member(a, "dataUrl"@)->0))
        } else {
            prev
        }
    }
}

/// The text of a message with its attachments: the text when not blank,
/// each text file inlined, and one line per attached path, separated by a
/// blank line.
pub open spec fn composed_text(text: Seq<char>, atts: Seq<Json>) -> Seq<char> {
    let head = if trim(text).len() > 0 {
        seq![text]
    } else {
        seq![]
    };
    let pl = path_lines(atts);
    let tail = if pl.len() > 0 {
        seq![text::join(pl, seq!['\n'])]
    } else {
        seq![]
    };
    text::join(head + file_blocks(atts, false) + tail, "\n\n"@)
}

/// The user message content: the plain text without attachments; the
/// composed text without images (the plain text when that is empty);
/// otherwise a list of a text part (when there is text) and image parts.
pub open spec fn user_content(text: Seq<char>, atts: Seq<Json>) -> Json {
    let composed = composed_text(text, atts);
    let imgs = image_parts(atts);
    if atts.len() == 0 {
        Json::Str(text)
    } else if imgs.len() == 0 {
        if composed.len() == 0 {
            Json::Str(text)
        } else {
            Json::Str(composed)
        }
    } else {
        Json::Array(
            (if composed.len() > 0 {
                seq![Json::Object(seq![("type"@, Json::Str("text"@)), ("text"@, Json::Str(composed))])]
            } else {
                seq![]
            }) + imgs,
        )
    }
}

fn str_member_exec(a: &JsonValue, k: &str) -> (r: Option<String>)
    ensures
        crate::settings::opt_string_view(r) == str_member(a@, k@),
{
    match a.get(k) {
        Some(JsonValue::Str(s)) => Some(text::owned(s.as_str())),
        _ => None,
    }
}

fn kind_is_exec(a: &JsonValue, k: &str) -> (b: bool)
    ensures
        b == kind_is(a@, k@),
{
    match str_member_exec(a, "kind") {
        Some(s) => text::str_eq(s.as_str(), k),
        None => false,
    }
}

fn file_block_exec(a: &JsonValue, esc: bool) -> (r: Option<String>)
    ensures
        crate::settings::opt_string_view(r) == file_block(a@, esc),
{
    let t = match str_member_exec(a, "text") {
        Some(t) => t,
        None => {
            return None;
        },
    };
    let name = match str_member_exec(a, "name") {
        Some(n) => n,
        None => String::from_str("file"),
    };
    let mime = match str_member_exec(a, "mime") {
        Some(m) => m,
        None => String::from_str("text/plain"),
    };
    let (n, m) = if esc {
        (escape_xml_attr(name.as_str()), escape_xml_attr(mime.as_str()))
    } else {
        (name, mime)
    };
    let mut v = chars_of("<file name=\"");
    push_str(&mut v, n.as_str());
    push_str(&mut v, "\" mime=\"");
    push_str(&mut v, m.as_str());
    push_str(&mut v, "\">\n");
    push_str(&mut v, t.as_str());
    push_str(&mut v, "\n</file>");
    Some(string_of(v.as_slice()))
}

/// The inlined text files of the attachments.
pub fn file_blocks_exec(atts: &[JsonValue], esc: bool) -> (r: Vec<Vec<char>>)
    ensures
        r@.map_values(|p: Vec<char>| p@) == file_blocks(items_view(atts@), esc),
{
    let ghost av = items_view(atts@);
    let mut r: Vec<Vec<char>> = Vec::new();
    let mut i: usize = 0;
    while i < atts.len()
        invariant
            i <= atts@.len(),
            av == items_view(atts@),
            r@.map_values(|p: Vec<char>| p@) == file_blocks(av.take(i as int), esc),
        decreases atts@.len() - i,
    {
        proof {
            assert(av.take(i + 1).drop_last() =~= av.take(i as int));
            assert(av.take(i + 1).last() == atts@[i as int]@);
        }
        let ghost before = r@.map_values(|p: Vec<char>| p@);
        if kind_is_exec(&atts[i], "text-file") {
            match file_block_exec(&atts[i], esc) {
                Some(b) => {
                    r.push(chars_of(b.as_str()));
                    assert(r@.map_values(|p: Vec<char>| p@) =~= before.push(b@));
                },
                None => {},
            }
        }
        i += 1;
    }
    assert(av.take(atts@.len() as int) =~= av);
    r
}

fn path_lines_exec(atts: &[JsonValue]) -> (r: Vec<Vec<char>>)
    ensures
        r@.map_values(|p: Vec<char>| p@) == path_lines(items_view(atts@)),
{
    let ghost av = items_view(atts@);
    let mut r: Vec<Vec<char>> = Vec::new();
    let mut i: usize = 0;
    while i < atts.len()
        invariant
            i <= atts@.len(),
            av == items_view(atts@),
            r@.map_values(|p: Vec<char>| p@) == path_lines(av.take(i as int)),
        decreases atts@.len() - i,
    {
        proof {
            assert(av.take(i + 1).drop_last() =~= av.take(i as int));
            assert(av.take(i + 1).last() == atts@[i as int]@);
        }
        let ghost before = r@.map_values(|p: Vec<char>| p@);
        if kind_is_exec(&atts[i], "path-ref") {
            match str_member_exec(&atts[i], "path") {
                Some(p) => {
                    if p.as_str().unicode_len() > 0 {
                        let mut v = chars_of("[Attached file: ");
                        push_str(&mut v, p.as_str());
                        push_str(&mut v, "]");
                        r.push(v);
                        assert(r@.map_values(|q: Vec<char>| q@) =~= before.push(
                            "[Attached file: "@ + p@ + "]"@,
                        ));
                    }
                },
                None => {},
            }
        }
        i += 1;
    }
    assert(av.take(atts@.len() as int) =~= av);
    r
}

fn str_value(s: &str) -> (r: JsonValue)
    ensures
        r@ == Json::Str(s@),
{
    JsonValue::Str(text::owned(s))
}

fn image_part_exec(url: &str) -> (r: JsonValue)
    ensures
        r@ == image_part(url@),
{
    let mut inner: Vec<(String, JsonValue)> = Vec::new();
    inner.push((String::from_str("url"), str_value(url)));
    assert(entries_view(inner@) =~= seq![("url"@, Json::Str(url@))]);
    let mut m: Vec<(String, JsonValue)> = Vec::new();
    m.push((String::from_str("type"), str_value("image_url")));
    m.push((String::from_str("image_url"), JsonValue::Object(inner)));
    assert(entries_view(m@) =~= seq![
        ("type"@, Json::Str("image_url"@)),
        ("image_url"@, Json::Object(seq![("url"@, Json::Str(url@))])),
    ]);
    JsonValue::Object(m)
}

fn image_parts_exec(atts: &[JsonValue]) -> (r: Vec<JsonValue>)
    ensures
        items_view(r@) == image_parts(items_view(atts@)),
{
    let ghost av = items_view(atts@);
    let mut r: Vec<JsonValue> = Vec::new();
    let mut i: usize = 0;
    while i < atts.len()
        invariant
            i <= atts@.len(),
            av == items_view(atts@),
            items_view(r@) == image_parts(av.take(i as int)),
        decreases atts@.len() - i,
    {
        proof {
            assert(av.take(i + 1).drop_last() =~= av.take(i as int));
            assert(av.take(i + 1).last() == atts@[i as int]@);
        }
        let ghost before = items_view(r@);
        if kind_is_exec(&atts[i], "image") {
            match str_member_exec(&atts[i], "dataUrl") {
                Some(d) => {
                    if d.as_str().unicode_len() > 0 {
                        let x = image_part_exec(d.as_str());
                        r.push(x);
                        assert(items_view(r@) =~= before.push(image_part(d@)));
                    }
                },
                None => {},
            }
        }
        i += 1;
    }
    assert(av.take(atts@.len() as int) =~= av);
    r
}

/// The composed text of a message and its attachments.
fn composed_exec(text: &str, atts: &[JsonValue]) -> (r: Vec<char>)
    ensures
        r@ == composed_text(text@, items_view(atts@)),
{
    let mut parts: Vec<Vec<char>> = Vec::new();
    let t = text::trim_str(text);
    let ghost head: Seq<Seq<char>> = if trim(text@).len() > 0 {
        seq![text@]
    } else {
        seq![]
    };
    if t.as_str().unicode_len() > 0 {
        parts.push(chars_of(text));
    }
    assert(parts@.map_values(|p: Vec<char>| p@) =~= head);
    let fb = file_blocks_exec(atts, false);
    let mut i: usize = 0;
    while i < fb.len()
        invariant
            i <= fb.len(),
            parts@.map_values(|p: Vec<char>| p@) == head + fb@.map_values(|p: Vec<char>| p@).take(
                i as int,
            ),
        decreases fb.len() - i,
    {
        let ghost before = parts@.map_values(|p: Vec<char>| p@);
        let piece = slice(&fb[i], 0, fb[i].len());
        assert(piece@ =~= fb@[i as int]@);
        parts.push(piece);
        assert(parts@.map_values(|p: Vec<char>| p@) =~= before.push(fb@[i as int]@));
        assert(fb@.map_values(|p: Vec<char>| p@).take(i + 1) =~= fb@.map_values(|p: Vec<char>| p@).take(
            i as int,
        ).push(fb@[i as int]@));
        assert(parts@.map_values(|p: Vec<char>| p@) =~= head + fb@.map_values(|p: Vec<char>| p@).take(
            i + 1,
        ));
        i += 1;
    }
    assert(fb@.map_values(|p: Vec<char>| p@).take(fb.len() as int) =~= fb@.map_values(
        |p: Vec<char>| p@,
    ));
    let pl = path_lines_exec(atts);
    let ghost before = parts@.map_values(|p: Vec<char>| p@);
    if pl.len() > 0 {
        let nl: Vec<char> = vec!['\n'];
        assert(nl@ =~= seq!['\n']);
        let j = text::join_exec(&pl, &nl);
        parts.push(j);
        assert(parts@.map_values(|p: Vec<char>| p@) =~= before.push(j@));
    }
    let sep = chars_of("\n\n");
    let r = text::join_exec(&parts, &sep);
    proof {
        let pv = path_lines(items_view(atts@));
        let tail = if pv.len() > 0 {
            seq![text::join(pv, seq!['\n'])]
        } else {
            seq![]
        };
        assert(parts@.map_values(|p: Vec<char>| p@) =~= head + file_blocks(items_view(atts@), false)
            + tail);
    }
    r
}

/// Builds the user message content from its text and attachments.
pub fn build_user_content(text: &str, attachments: &[JsonValue]) -> (r: JsonValue)
    ensures
        r@ == user_content(text@, items_view(attachments@)),
{
    if attachments.len() == 0 {
        assert(items_view(attachments@).len() == 0);
        return str_value(text);
    }
    let composed = composed_exec(text, attachments);
    let imgs = image_parts_exec(attachments);
    if imgs.len() == 0 {
        assert(image_parts(items_view(attachments@)).len() == 0);
        if composed.len() == 0 {
            return str_value(text);
        }
        return JsonValue::Str(string_of(composed.as_slice()));
    }
    let mut out: Vec<JsonValue> = Vec::new();
    let ghost head: Seq<Json> = if composed@.len() > 0 {
        seq![Json::Object(seq![("type"@, Json::Str("text"@)), ("text"@, Json::Str(composed@))])]
    } else {
        seq![]
    };
    if composed.len() > 0 {
        let mut m: Vec<(String, JsonValue)> = Vec::new();
        m.push((String::from_str("type"), str_value("text")));
        m.push((String::from_str("text"), JsonValue::Str(string_of(composed.as_slice()))));
        assert(entries_view(m@) =~= seq![("type"@, Json::Str("text"@)), ("text"@, Json::Str(composed@))]);
        out.push(JsonValue::Object(m));
    }
    assert(items_view(out@) =~= head);
    let mut imgs = imgs;
    let ghost iv = items_view(imgs@);
    let mut k: usize = 0;
    let n = imgs.len();
    let mut rest: Vec<JsonValue> = Vec::new();
    std::mem::swap(&mut rest, &mut imgs);
    while rest.len() > 0
        invariant
            n == iv.len(),
            k + rest@.len() == n,
            items_view(rest@) == iv.skip(k as int),
            items_view(out@) == head + iv.take(k as int),
        decreases rest.len(),
    {
        let ghost old_rest = rest@;
        let x = rest.remove(0);
        proof {
            assert(items_view(old_rest)[0] == old_rest[0]@);
            assert(iv.skip(k as int)[0] == x@);
            assert forall|j: int| 0 <= j < rest@.len() implies #[trigger] items_view(rest@)[j] == iv.skip(
                k + 1,
            )[j] by {
                assert(rest@[j] == old_rest[j + 1]);
                assert(items_view(old_rest)[j + 1] == old_rest[j + 1]@);
                assert(iv.skip(k as int)[j + 1] == iv.skip(k + 1)[j]);
            }
            assert(items_view(rest@) =~= iv.skip(k + 1));
        }
        let ghost before = items_view(out@);
        out.push(x);
        assert(items_view(out@) =~= before.push(x@));
        assert(head + iv.take(k + 1) =~= (head + iv.take(k as int)).push(x@));
        k += 1;
    }
    assert(iv.take(n as int) =~= iv);
    JsonValue::Array(out)
}


// ───────────────────────── the reply stream ─────────────────────────

/// Token usage as reported: the three counts (0 when missing), the cost's
/// decimal text, and the rate-limit fields.
pub type UsageView = (int, int, int, Option<Seq<char>>, Option<int>, Option<int>);

pub open spec fn usage_of(u: Json) -> UsageView {
    (
        or_zero(u.field("prompt_tokens"@).as_u64()),
        or_zero(u.field("completion_tokens"@).as_u64()),
        or_zero(u.field("total_tokens"@).as_u64()),
        number_text(u.field("cost"@)),
        u.field("rate_limit_remaining"@).as_u64(),
        u.field("rate_limit_reset"@).as_u64(),
    )
}

pub open spec fn parsed_usage_view(p: ParsedUsage) -> UsageView {
    (
        p.prompt_tokens as int,
        p.completion_tokens as int,
        p.total_tokens as int,
        sse_opt_view(p.cost),
        opt_u64(p.rate_limit_remaining),
        opt_u64(p.rate_limit_reset),
    )
}

/// What the stream tells the window: a tool at work, token usage, or a
/// piece of the answer.
pub enum StreamEvent {
    ToolProgress(String),
    Usage(ParsedUsage),
    Chunk(String),
}

pub enum EventView {
    Tool(Seq<char>),
    Usage(UsageView),
    Chunk(Seq<char>),
}

pub open spec fn event_view(e: StreamEvent) -> EventView {
    match e {
        StreamEvent::ToolProgress(s) => EventView::Tool(s@),
        StreamEvent::Usage(p) => EventView::Usage(parsed_usage_view(p)),
        StreamEvent::Chunk(s) => EventView::Chunk(s@),
    }
}

pub open spec fn events_view(es: Seq<StreamEvent>) -> Seq<EventView> {
    es.map_values(|e: StreamEvent| event_view(e))
}

/// The answer so far, whether any content arrived, and the last error the
/// server reported.
pub struct StreamState {
    pub full_content: String,
    pub has_content: bool,
    pub last_error: String,
}

pub type StreamView = (Seq<char>, bool, Seq<char>);

pub open spec fn stream_view(s: StreamState) -> StreamView {
    (s.full_content@, s.has_content, s.last_error@)
}

/// The `event:` and `data:` values of a block's lines (trimmed; the last of
/// each wins).
pub open spec fn chat_fields(ls: Seq<Seq<char>>) -> (Seq<char>, Seq<char>)
    decreases ls.len(),
{
    if ls.len() == 0 {
        (seq![], seq![])
    } else {
        let prev = chat_fields(ls.drop_last());
        let t = trim(ls.last());
        if text::starts_with(t, "event: "@) {
            (trim(t.skip(7)), prev.1)
        } else if text::starts_with(t, "data: "@) {
            (prev.0, t.skip(6))
        } else {
            prev
        }
    }
}

/// The text of a `hermes.tool.progress` event: its label (or tool name),
/// after its emoji when there is one.
pub open spec fn progress_text(p: Json) -> Seq<char> {
    let label = match p.field("label"@).as_str() {
        Some(l) => l,
        None => match p.field("tool"@).as_str() {
            Some(t) => t,
            None => seq![],
        },
    };
    let emoji = match p.field("emoji"@).as_str() {
        Some(e) => e,
        None => seq![],
    };
    if emoji.len() == 0 {
        label
    } else {
        emoji + seq![' '] + label
    }
}

/// One block of the stream: a custom event reports tool progress; `[DONE]`
/// and undecodable data change nothing; an error is kept; otherwise usage is
/// reported, and the delta is either tool progress or a piece of content.
pub open spec fn block_step(block: Seq<char>, detect: bool, st: StreamView) -> (StreamView, Seq<EventView>) {
    let f = chat_fields(text::lines(block));
    let ev = f.0;
    let data = f.1;
    if data.len() == 0 {
        (st, seq![])
    } else if ev.len() > 0 {
        if ev == "hermes.tool.progress"@ && json_parse(data) is Some {
            (st, seq![EventView::Tool(progress_text(json_parse(data)->0))])
        } else {
            (st, seq![])
        }
    } else if data == "[DONE]"@ {
        (st, seq![])
    } else {
        match json_parse(data) {
            None => (st, seq![]),
            Some(v) => match v.field("error"@) {
                Json::Object(_) => (
                    (
                        st.0,
                        st.1,
                        match v.field("error"@).str_field("message"@) {
                            Some(m) => m,
                            None => "Unknown error"@,
                        },
                    ),
                    seq![],
                ),
                _ => {
                    let ue = match v.get("usage"@) {
                        Some(u) => seq![EventView::Usage(usage_of(u))],
                        None => seq![],
                    };
                    match delta_content(v) {
                        Some(c) => if detect && tool_text(c) is Some {
                            (st, ue.push(EventView::Tool(tool_text(c)->0)))
                        } else {
                            ((st.0 + c, true, st.2), ue.push(EventView::Chunk(c)))
                        },
                        None => (st, ue),
                    }
                },
            },
        }
    }
}

/// The blocks of a stream in order.
pub open spec fn blocks_step(bs: Seq<Seq<char>>, detect: bool, st: StreamView) -> (StreamView, Seq<EventView>)
    decreases bs.len(),
{
    if bs.len() == 0 {
        (st, seq![])
    } else {
        let a = blocks_step(bs.drop_last(), detect, st);
        let b = block_step(bs.last(), detect, a.0);
        (b.0, a.1 + b.1)
    }
}

fn chat_fields_exec(block: &str) -> (r: (Vec<char>, Vec<char>))
    ensures
        (r.0@, r.1@) == chat_fields(text::lines(block@)),
{
    let c = chars_of(block);
    let ls = text::lines_exec(&c);
    let ghost all = text::lines(c@);
    let mut ev: Vec<char> = Vec::new();
    let mut data: Vec<char> = Vec::new();
    let ek = chars_of("event: ");
    let dk = chars_of("data: ");
    proof {
        reveal_strlit("event: ");
        reveal_strlit("data: ");
    }
    let mut i: usize = 0;
    assert(chat_fields(all.take(0)) == (Seq::<char>::empty(), Seq::<char>::empty())) by {
        assert(all.take(0).len() == 0);
    }
    assert(ev@ =~= Seq::<char>::empty());
    assert(data@ =~= Seq::<char>::empty());
    while i < ls.len()
        invariant
            i <= ls.len(),
            all == text::lines(c@),
            c@ == block@,
            ek@ == "event: "@,
            dk@ == "data: "@,
            ek@.len() == 7,
            dk@.len() == 6,
            ls@.len() == all.len(),
            forall|k: int| 0 <= k < ls@.len() ==> #[trigger] ls@[k]@ == all[k],
            (ev@, data@) == chat_fields(all.take(i as int)),
        decreases ls.len() - i,
    {
        proof {
            assert(all.take(i + 1).drop_last() =~= all.take(i as int));
            assert(all.take(i + 1).last() == ls@[i as int]@);
        }
        let t = text::trim_vec(&ls[i]);
        if text::starts_with_exec(&t, &ek) {
            let rest = slice(&t, 7, t.len());
            assert(rest@ =~= t@.skip(7));
            ev = text::trim_vec(&rest);
        } else if text::starts_with_exec(&t, &dk) {
            data = slice(&t, 6, t.len());
            assert(data@ =~= t@.skip(6));
        }
        i += 1;
    }
    assert(all.take(ls.len() as int) =~= all);
    (ev, data)
}

fn progress_text_exec(p: &JsonValue) -> (r: String)
    ensures
        r@ == progress_text(p@),
{
    let label = match p.get("label") {
        Some(JsonValue::Str(l)) => text::owned(l.as_str()),
        _ => match p.get("tool") {
            Some(JsonValue::Str(t)) => text::owned(t.as_str()),
            _ => String::new(),
        },
    };
    let emoji = match p.get("emoji") {
        Some(JsonValue::Str(e)) => text::owned(e.as_str()),
        _ => String::new(),
    };
    proof {
        reveal_strlit(" ");
        assert(" "@ =~= seq![' ']);
    }
    if emoji.as_str().unicode_len() == 0 {
        label
    } else {
        text::concat3(emoji.as_str(), " ", label.as_str())
    }
}

/// Processes one block of the reply stream, updating the answer and
/// returning what to show.
pub fn process_sse_block(block: &str, state: &mut StreamState, detect_tool: bool) -> (r: Vec<StreamEvent>)
    ensures
        (stream_view(*final(state)), events_view(r@)) == block_step(block@, detect_tool, stream_view(*old(state))),
{
    let mut out: Vec<StreamEvent> = Vec::new();
    assert(events_view(out@) =~= seq![]);
    let (ev, data) = chat_fields_exec(block);
    if data.len() == 0 {
        return out;
    }
    let ds = string_of(data.as_slice());
    if ev.len() > 0 {
        let tp = chars_of("hermes.tool.progress");
        if text::eq_chars(&ev, &tp) {
            match crate::json::parse_json(ds.as_str()) {
                Some(p) => {
                    out.push(StreamEvent::ToolProgress(progress_text_exec(&p)));
                    assert(events_view(out@) =~= seq![EventView::Tool(progress_text(p@))]);
                },
                None => {},
            }
        }
        return out;
    }
    if text::str_eq(ds.as_str(), "[DONE]") {
        return out;
    }
    let v = match crate::json::parse_json(ds.as_str()) {
        None => {
            return out;
        },
        Some(v) => v,
    };
    match v.get("error") {
        Some(JsonValue::Object(_)) => {
            let msg = match crate::json::field2(&v, "error", "message") {
                Some(JsonValue::Str(m)) => text::owned(m.as_str()),
                _ => String::from_str("Unknown error"),
            };
            state.last_error = msg;
            return out;
        },
        _ => {},
    }
    match v.get("usage") {
        Some(u) => {
            let pu = crate::sse::read_usage(u);
            out.push(StreamEvent::Usage(pu));
            assert(events_view(out@) =~= seq![EventView::Usage(usage_of(u@))]);
        },
        None => {},
    }
    let ghost ue = events_view(out@);
    match crate::sse::read_delta_content(&v) {
        Some(c) => {
            let tp = if detect_tool {
                crate::sse::tool_progress_text(c.as_str())
            } else {
                None
            };
            match tp {
                Some(t) => {
                    out.push(StreamEvent::ToolProgress(t));
                    assert(events_view(out@) =~= ue.push(EventView::Tool(tool_text(c@)->0)));
                },
                None => {
                    state.has_content = true;
                    let full = text::concat2(state.full_content.as_str(), c.as_str());
                    state.full_content = full;
                    out.push(StreamEvent::Chunk(c));
                    assert(events_view(out@) =~= ue.push(EventView::Chunk(c@)));
                },
            }
        },
        None => {},
    }
    out
}


/// The block separator of the stream.
pub open spec fn blank_line() -> Seq<char> {
    seq!['\n', '\n']
}

/// Feeding text to the decoder: the complete blocks of the buffer with the
/// new text are processed in order; the incomplete rest stays buffered.
pub open spec fn fed(buffer: Seq<char>, chunk: Seq<char>, detect: bool, st: StreamView) -> (
    Seq<char>,
    StreamView,
    Seq<EventView>,
) {
    let parts = text::split(buffer + chunk, blank_line());
    let r = blocks_step(parts.drop_last(), detect, st);
    (parts.last(), r.0, r.1)
}

/// At the end of the stream a buffer that is not blank is processed too.
pub open spec fn flushed(buffer: Seq<char>, detect: bool, st: StreamView) -> (StreamView, Seq<EventView>) {
    if trim(buffer).len() == 0 {
        (st, seq![])
    } else {
        blocks_step(text::split(buffer, blank_line()), detect, st)
    }
}

/// Decodes the reply stream of the chat API.
pub struct StreamDecoder {
    pub buffer: String,
    pub state: StreamState,
    pub detect_tool: bool,
}

fn blocks_exec(bs: &Vec<Vec<char>>, n: usize, state: &mut StreamState, detect: bool) -> (r: Vec<
    StreamEvent,
>)
    requires
        n <= bs.len(),
    ensures
        (stream_view(*final(state)), events_view(r@)) == blocks_step(
            bs@.map_values(|p: Vec<char>| p@).take(n as int),
            detect,
            stream_view(*old(state)),
        ),
{
    let ghost all = bs@.map_values(|p: Vec<char>| p@);
    let ghost st0 = stream_view(*state);
    let mut out: Vec<StreamEvent> = Vec::new();
    let mut i: usize = 0;
    assert(all.take(0).len() == 0);
    assert(events_view(out@) =~= seq![]);
    while i < n
        invariant
            i <= n <= bs.len(),
            all == bs@.map_values(|p: Vec<char>| p@),
            (stream_view(*state), events_view(out@)) == blocks_step(all.take(i as int), detect, st0),
        decreases n - i,
    {
        proof {
            assert(all.take(i + 1).drop_last() =~= all.take(i as int));
            assert(all.take(i + 1).last() == bs@[i as int]@);
        }
        let b = string_of(bs[i].as_slice());
        let ghost before = events_view(out@);
        let evs = process_sse_block(b.as_str(), state, detect);
        let mut evs = evs;
        let ghost ev = events_view(evs@);
        let mut k: usize = 0;
        let m = evs.len();
        let mut rest: Vec<StreamEvent> = Vec::new();
        std::mem::swap(&mut rest, &mut evs);
        let ghost rv = rest@;
        while rest.len() > 0
            invariant
                k + rest@.len() == m,
                m == rv.len(),
                rest@ == rv.skip(k as int),
                events_view(out@) == before + events_view(rv.take(k as int)),
            decreases rest.len(),
        {
            let ghost old_rest = rest@;
            let x = rest.remove(0);
            proof {
                assert(rv.skip(k as int)[0] == x);
                assert(rest@ =~= rv.skip(k + 1));
                assert(rv.take(k + 1) =~= rv.take(k as int).push(x));
            }
            let ghost ob = events_view(out@);
            out.push(x);
            proof {
                assert(events_view(out@) =~= ob.push(event_view(x)));
                assert(events_view(rv.take(k + 1)) =~= events_view(rv.take(k as int)).push(event_view(x)));
            }
            k += 1;
        }
        assert(rv.take(m as int) =~= rv);
        i += 1;
    }
    out
}

impl StreamDecoder {
    pub fn new(detect_tool: bool) -> (r: StreamDecoder)
        ensures
            r.buffer@ == Seq::<char>::empty(),
            stream_view(r.state) == (Seq::<char>::empty(), false, Seq::<char>::empty()),
            r.detect_tool == detect_tool,
    {
        StreamDecoder {
            buffer: String::new(),
            state: StreamState { full_content: String::new(), has_content: false, last_error: String::new() },
            detect_tool,
        }
    }

    /// Takes the next piece of the stream's text and returns what to show.
    pub fn feed(&mut self, chunk: &str) -> (r: Vec<StreamEvent>)
        ensures
            final(self).detect_tool == old(self).detect_tool,
            (final(self).buffer@, stream_view(final(self).state), events_view(r@)) == fed(
                old(self).buffer@,
                chunk@,
                old(self).detect_tool,
                stream_view(old(self).state),
            ),
    {
        let mut all = chars_of(self.buffer.as_str());
        push_str(&mut all, chunk);
        let sep: Vec<char> = vec!['\n', '\n'];
        assert(sep@ =~= blank_line());
        let parts = text::split_exec(&all, &sep);
        let ghost pv = parts@.map_values(|p: Vec<char>| p@);
        proof {
            assert(pv =~= text::split(all@, blank_line()));
            text::lemma_split_nonempty(all@, blank_line());
        }
        let n = parts.len() - 1;
        assert(pv.take(n as int) =~= pv.drop_last());
        let evs = blocks_exec(&parts, n, &mut self.state, self.detect_tool);
        self.buffer = string_of(parts[n].as_slice());
        evs
    }

    /// Ends the stream: processes what is left in the buffer.
    pub fn finish(&mut self) -> (r: Vec<StreamEvent>)
        ensures
            final(self).detect_tool == old(self).detect_tool,
            final(self).buffer@ == old(self).buffer@,
            (stream_view(final(self).state), events_view(r@)) == flushed(
                old(self).buffer@,
                old(self).detect_tool,
                stream_view(old(self).state),
            ),
    {
        let b = chars_of(self.buffer.as_str());
        let t = text::trim_vec(&b);
        if t.len() == 0 {
            let out: Vec<StreamEvent> = Vec::new();
            assert(events_view(out@) =~= seq![]);
            return out;
        }
        let sep: Vec<char> = vec!['\n', '\n'];
        assert(sep@ =~= blank_line());
        let parts = text::split_exec(&b, &sep);
        let ghost pv = parts@.map_values(|p: Vec<char>| p@);
        assert(pv =~= text::split(b@, blank_line()));
        assert(pv.take(parts.len() as int) =~= pv);
        blocks_exec(&parts, parts.len(), &mut self.state, self.detect_tool)
    }
}

/// A chat reply and its session.
pub struct SendResult {
    pub response: String,
    pub session_id: Option<String>,
}

/// The reply of a finished stream: `None` when it brought neither content
/// nor an error (the caller then asks once without streaming); otherwise the
/// answer, under the resumed session or else `fresh_sid`.
pub fn stream_result(state: &StreamState, resume_sid: Option<&str>, fresh_sid: &str) -> (r: Option<SendResult>)
    ensures
        (!state.has_content && state.last_error@.len() == 0) ==> r is None,
        (state.has_content || state.last_error@.len() > 0) ==> (r matches Some(x) && x.response@
            == state.full_content@ && (x.session_id matches Some(sid) && sid@ == match resume_sid {
            Some(s) => s@,
            None => fresh_sid@,
        })),
{
    if !state.has_content && state.last_error.as_str().unicode_len() == 0 {
        return None;
    }
    let sid = match resume_sid {
        Some(s) => text::owned(s),
        None => text::owned(fresh_sid),
    };
    Some(SendResult { response: text::owned(state.full_content.as_str()), session_id: Some(sid) })
}

// ───────────────────────── laws of the decoder ─────────────────────────

/// Processing blocks `a` then `b` is processing `a + b`.
pub proof fn lemma_blocks_append(a: Seq<Seq<char>>, b: Seq<Seq<char>>, detect: bool, st: StreamView)
    ensures
        blocks_step(a + b, detect, st) == ({
            let ra = blocks_step(a, detect, st);
            let rb = blocks_step(b, detect, ra.0);
            (rb.0, ra.1 + rb.1)
        }),
    decreases b.len(),
{
    if b.len() == 0 {
        assert(a + b =~= a);
        let ra = blocks_step(a, detect, st);
        assert(ra.1 + Seq::<EventView>::empty() =~= ra.1);
    } else {
        lemma_blocks_append(a, b.drop_last(), detect, st);
        assert((a + b).drop_last() =~= a + b.drop_last());
        assert((a + b).last() == b.last());
        let ra = blocks_step(a, detect, st);
        let rb0 = blocks_step(b.drop_last(), detect, ra.0);
        let last = block_step(b.last(), detect, rb0.0);
        assert(ra.1 + rb0.1 + last.1 =~= ra.1 + (rb0.1 + last.1));
    }
}

/// The text of the content pieces among some events, in order.
pub open spec fn chunks_text(evs: Seq<EventView>) -> Seq<char>
    decreases evs.len(),
{
    if evs.len() == 0 {
        seq![]
    } else {
        chunks_text(evs.drop_last()) + match evs.last() {
            EventView::Chunk(c) => c,
            _ => seq![],
        }
    }
}

proof fn lemma_chunks_text_append(a: Seq<EventView>, b: Seq<EventView>)
    ensures
        chunks_text(a + b) == chunks_text(a) + chunks_text(b),
    decreases b.len(),
{
    if b.len() == 0 {
        assert(a + b =~= a);
        assert(chunks_text(a) + Seq::<char>::empty() =~= chunks_text(a));
    } else {
        assert((a + b).drop_last() =~= a + b.drop_last());
        assert((a + b).last() == b.last());
        lemma_chunks_text_append(a, b.drop_last());
        let t = match b.last() {
            EventView::Chunk(c) => c,
            _ => seq![],
        };
        assert(chunks_text(a) + chunks_text(b.drop_last()) + t =~= chunks_text(a) + (chunks_text(b.drop_last())
            + t));
    }
}

/// The answer grows by exactly the content a block shows: after a block the
/// answer is the one before followed by the texts of the content events it
/// emitted, untouched and in order.
pub proof fn law_block_answer_is_chunks(block: Seq<char>, detect: bool, st: StreamView)
    ensures
        block_step(block, detect, st).0.0 == st.0 + chunks_text(block_step(block, detect, st).1),
{
    let r = block_step(block, detect, st);
    let empty_u = Seq::<EventView>::empty();
    assert(chunks_text(empty_u) == Seq::<char>::empty());
    assert(st.0 + Seq::<char>::empty() =~= st.0);
    let f = chat_fields(text::lines(block));
    if f.1.len() > 0 && f.0.len() == 0 && f.1 != "[DONE]"@ {
        if let Some(v) = json_parse(f.1) {
            if !(v.field("error"@) is Object) {
                let ue = match v.get("usage"@) {
                    Some(u) => seq![EventView::Usage(usage_of(u))],
                    None => seq![],
                };
                assert(chunks_text(ue) == Seq::<char>::empty()) by {
                    if ue.len() == 1 {
                        assert(ue.drop_last() =~= empty_u);
                    }
                }
                if let Some(c) = delta_content(v) {
                    if !(detect && tool_text(c) is Some) {
                        assert(ue.push(EventView::Chunk(c)).drop_last() =~= ue);
                    } else {
                        assert(ue.push(EventView::Tool(tool_text(c)->0)).drop_last() =~= ue);
                    }
                }
            }
        }
    } else if f.1.len() > 0 && f.0.len() > 0 {
        if f.0 == "hermes.tool.progress"@ && json_parse(f.1) is Some {
            let t = seq![EventView::Tool(progress_text(json_parse(f.1)->0))];
            assert(t.drop_last() =~= empty_u);
        }
    }
}

/// Over any run of blocks the answer is the one before followed by the
/// texts of all content events emitted, in order.
pub proof fn law_blocks_answer_is_chunks(bs: Seq<Seq<char>>, detect: bool, st: StreamView)
    ensures
        blocks_step(bs, detect, st).0.0 == st.0 + chunks_text(blocks_step(bs, detect, st).1),
    decreases bs.len(),
{
    if bs.len() == 0 {
        assert(st.0 + Seq::<char>::empty() =~= st.0);
    } else {
        law_blocks_answer_is_chunks(bs.drop_last(), detect, st);
        let a = blocks_step(bs.drop_last(), detect, st);
        law_block_answer_is_chunks(bs.last(), detect, a.0);
        let b = block_step(bs.last(), detect, a.0);
        lemma_chunks_text_append(a.1, b.1);
        assert(st.0 + chunks_text(a.1) + chunks_text(b.1) =~= st.0 + (chunks_text(a.1) + chunks_text(b.1)));
    }
}

/// Feeding the decoder and flushing it keep the answer equal to what it was
/// followed by the texts of the content events shown.
pub proof fn law_reply_is_chunks(buffer: Seq<char>, chunk: Seq<char>, detect: bool, st: StreamView)
    ensures
        fed(buffer, chunk, detect, st).1.0 == st.0 + chunks_text(fed(buffer, chunk, detect, st).2),
        flushed(buffer, detect, st).0.0 == st.0 + chunks_text(flushed(buffer, detect, st).1),
{
    let parts = text::split(buffer + chunk, blank_line());
    law_blocks_answer_is_chunks(parts.drop_last(), detect, st);
    if trim(buffer).len() == 0 {
        assert(st.0 + Seq::<char>::empty() =~= st.0);
    } else {
        law_blocks_answer_is_chunks(text::split(buffer, blank_line()), detect, st);
    }
}

/// A content block adds exactly the delta's content string,
/// `choices[0].delta.content`, untrimmed, to the answer, and shows it as a
/// content event.
pub proof fn law_content_block_appends_delta(block: Seq<char>, detect: bool, st: StreamView, v: Json, c: Seq<char>)
    requires
        chat_fields(text::lines(block)).0.len() == 0,
        chat_fields(text::lines(block)).1.len() > 0,
        chat_fields(text::lines(block)).1 != "[DONE]"@,
        json_parse(chat_fields(text::lines(block)).1) == Some(v),
        !(v.field("error"@) is Object),
        v.field("choices"@).as_array() matches Some(cs) && cs.len() > 0 && cs[0].field("delta"@).field(
            "content"@,
        ).as_str() == Some(c),
        !(detect && tool_text(c) is Some),
    ensures
        block_step(block, detect, st).0.0 == st.0 + c,
        block_step(block, detect, st).1.last() == EventView::Chunk(c),
{
    assert(delta_content(v) == Some(c));
}

/// The decoder does not depend on where the stream's text was cut into
/// pieces: feeding `c1` and then `c2` leaves the same buffer and answer, and
/// shows the same events, as feeding `c1 + c2` at once.
pub proof fn law_feed_chunking(
    buffer: Seq<char>,
    c1: Seq<char>,
    c2: Seq<char>,
    detect: bool,
    st: StreamView,
)
    ensures
        ({
            let f1 = fed(buffer, c1, detect, st);
            let f2 = fed(f1.0, c2, detect, f1.1);
            let f = fed(buffer, c1 + c2, detect, st);
            f2.0 == f.0 && f2.1 == f.1 && f1.2 + f2.2 == f.2
        }),
{
    let d = blank_line();
    let x = buffer + c1;
    text::lemma_split_append(x, c2, d);
    let p1 = text::split(x, d);
    let p2 = text::split(p1.last() + c2, d);
    text::lemma_split_nonempty(p1.last() + c2, d);
    assert(buffer + (c1 + c2) =~= x + c2);
    let p = text::split(x + c2, d);
    assert(p == p1.drop_last() + p2);
    assert(p.drop_last() =~= p1.drop_last() + p2.drop_last());
    assert(p.last() == p2.last());
    lemma_blocks_append(p1.drop_last(), p2.drop_last(), detect, st);
}


// ───────────────────────── the request ─────────────────────────

/// A message of the conversation so far.
pub struct ChatMessage {
    pub role: String,
    pub content: String,
}

/// A chat request as the UI sends it.
pub struct ChatRequest {
    pub model: Option<String>,
    pub messages: Vec<ChatMessage>,
    pub stream: Option<bool>,
    pub session_id: Option<String>,
}

/// An attachment of a message.
pub struct Attachment {
    pub kind: Option<String>,
    pub name: String,
    pub text: Option<String>,
    pub path: Option<String>,
    pub mime: Option<String>,
    pub data_url: Option<String>,
}

/// `{"role": role, "content": content}`, the UI's `agent` role sent as `assistant`.
pub open spec fn history_message(m: ChatMessage) -> Json {
    Json::Object(
        seq![
            ("role"@, Json::Str(if m.role@ == "agent"@ {
                "assistant"@
            } else {
                m.role@
            })),
            ("content"@, Json::Str(m.content@)),
        ],
    )
}

/// The body of a streaming chat request: the model, the history and the
/// user's message, and the session to resume when there is one.
pub open spec fn chat_body(model: Seq<char>, history: Seq<ChatMessage>, message: Seq<char>, atts: Seq<Json>, resume: Option<Seq<char>>) -> Json {
    let msgs = history.map_values(|m: ChatMessage| history_message(m)).push(
        Json::Object(seq![("role"@, Json::Str("user"@)), ("content"@, user_content(message, atts))]),
    );
    let base = seq![("model"@, Json::Str(model)), ("messages"@, Json::Array(msgs)), ("stream"@, Json::Bool(true))];
    Json::Object(match resume {
        Some(sid) => base.push(("session_id"@, Json::Str(sid))),
        None => base,
    })
}

fn history_message_exec(m: &ChatMessage) -> (r: JsonValue)
    ensures
        r@ == history_message(*m),
{
    let role = if text::str_eq(m.role.as_str(), "agent") {
        str_value("assistant")
    } else {
        str_value(m.role.as_str())
    };
    let mut o: Vec<(String, JsonValue)> = Vec::new();
    o.push((String::from_str("role"), role));
    o.push((String::from_str("content"), str_value(m.content.as_str())));
    assert(entries_view(o@) =~= seq![
        ("role"@, Json::Str(if m.role@ == "agent"@ { "assistant"@ } else { m.role@ })),
        ("content"@, Json::Str(m.content@)),
    ]);
    JsonValue::Object(o)
}

/// Builds the body of a streaming chat request.
pub fn build_chat_body(
    model: &str,
    history: &[ChatMessage],
    message: &str,
    attachments: &[JsonValue],
    resume_session_id: Option<&str>,
) -> (r: JsonValue)
    ensures
        r@ == chat_body(model@, history@, message@, items_view(attachments@), crate::paths::opt_view(resume_session_id)),
{
    let mut msgs: Vec<JsonValue> = Vec::new();
    let mut i: usize = 0;
    while i < history.len()
        invariant
            i <= history@.len(),
            items_view(msgs@) == history@.take(i as int).map_values(|m: ChatMessage| history_message(m)),
        decreases history@.len() - i,
    {
        let ghost before = items_view(msgs@);
        msgs.push(history_message_exec(&history[i]));
        assert(items_view(msgs@) =~= before.push(history_message(history@[i as int])));
        assert(history@.take(i + 1).map_values(|m: ChatMessage| history_message(m)) =~= history@.take(
            i as int,
        ).map_values(|m: ChatMessage| history_message(m)).push(history_message(history@[i as int])));
        i += 1;
    }
    assert(history@.take(history@.len() as int) =~= history@);
    let content = build_user_content(message, attachments);
    let mut um: Vec<(String, JsonValue)> = Vec::new();
    um.push((String::from_str("role"), str_value("user")));
    um.push((String::from_str("content"), content));
    let ghost ucv = user_content(message@, items_view(attachments@));
    assert(entries_view(um@) =~= seq![("role"@, Json::Str("user"@)), ("content"@, ucv)]);
    let ghost before = items_view(msgs@);
    msgs.push(JsonValue::Object(um));
    assert(items_view(msgs@) =~= before.push(Json::Object(seq![("role"@, Json::Str("user"@)), ("content"@, ucv)])));
    let mut b: Vec<(String, JsonValue)> = Vec::new();
    b.push((String::from_str("model"), str_value(model)));
    b.push((String::from_str("messages"), JsonValue::Array(msgs)));
    b.push((String::from_str("stream"), JsonValue::Bool(true)));
    match resume_session_id {
        Some(sid) => {
            b.push((String::from_str("session_id"), str_value(sid)));
        },
        None => {},
    }
    assert(entries_view(b@) =~= match chat_body(model@, history@, message@, items_view(attachments@), crate::paths::opt_view(resume_session_id)) {
        Json::Object(m) => m,
        _ => seq![],
    });
    JsonValue::Object(b)
}

/// The body of the follow-up request without streaming: `stream` set to false.
pub fn build_probe_body(body: JsonValue) -> (r: JsonValue)
    requires
        crate::settings::indexable(body@),
    ensures
        r@ == Json::Object(crate::json::obj_insert(
            match body@ {
                Json::Object(m) => m,
                _ => seq![],
            },
            "stream"@,
            Json::Bool(false),
        )),
{
    let m: Vec<(String, JsonValue)> = match body {
        JsonValue::Object(m) => m,
        _ => {
            let e: Vec<(String, JsonValue)> = Vec::new();
            assert(entries_view(e@) =~= seq![]);
            e
        },
    };
    JsonValue::Object(crate::json::obj_insert_exec(m, "stream", JsonValue::Bool(false)))
}

/// What the follow-up request without streaming answered: the first
/// choice's message, else the error message, else nothing usable.
pub open spec fn probe_answer(text: Seq<char>) -> Result<Seq<char>, Seq<char>> {
    match json_parse(text) {
        Some(v) => {
            let first = match v.field("choices"@).as_array() {
                Some(cs) => if cs.len() > 0 {
                    cs[0].field("message"@).field("content"@).as_str()
                } else {
                    None
                },
                None => None,
            };
            match first {
                Some(c) => Ok(c),
                None => match v.field("error"@).field("message"@).as_str() {
                    Some(m) => Err(m),
                    None => Err("hermes.noResponse"@),
                },
            }
        },
        None => Err("hermes.noResponse"@),
    }
}

/// The reply of the follow-up request, under a new session `fresh_sid`.
pub fn probe_result(text: &str, fresh_sid: &str) -> (r: Result<SendResult, String>)
    ensures
        match probe_answer(text@) {
            Ok(c) => r matches Ok(x) && x.response@ == c && (x.session_id matches Some(s) && s@ == fresh_sid@),
            Err(e) => r matches Err(m) && m@ == e,
        },
{
    let v = match crate::json::parse_json(text) {
        Some(v) => v,
        None => {
            return Err(String::from_str("hermes.noResponse"));
        },
    };
    match v.get("choices") {
        Some(JsonValue::Array(cs)) => {
            if cs.len() > 0 {
                assert(cs@[0]@ == v@.field("choices"@).as_array().unwrap()[0]);
                match crate::json::field2(&cs[0], "message", "content") {
                    Some(JsonValue::Str(c)) => {
                        return Ok(SendResult { response: text::owned(c.as_str()), session_id: Some(text::owned(fresh_sid)) });
                    },
                    _ => {},
                }
            }
        },
        _ => {},
    }
    match crate::json::field2(&v, "error", "message") {
        Some(JsonValue::Str(m)) => Err(text::owned(m.as_str())),
        _ => Err(String::from_str("hermes.noResponse")),
    }
}

/// The error for a refused request: an API error when its body is JSON,
/// a server error otherwise.
pub fn api_error_key(err_body: &str) -> (r: String)
    ensures
        r@ == if json_parse(err_body@) is Some {
            "hermes.apiError"@
        } else {
            "hermes.apiServerError"@
        },
{
    match crate::json::parse_json(err_body) {
        Some(_) => String::from_str("hermes.apiError"),
        None => String::from_str("hermes.apiServerError"),
    }
}

/// The error for a request that got no answer.
pub fn api_request_error(timed_out: bool, detail: &str) -> (r: String)
    ensures
        r@ == if timed_out {
            "API request timed out. Check the SSH tunnel and remote Hermes gateway."@
        } else {
            "API request failed: "@ + detail@
        },
{
    if timed_out {
        String::from_str("API request timed out. Check the SSH tunnel and remote Hermes gateway.")
    } else {
        text::concat2("API request failed: ", detail)
    }
}

/// `{url}/health`, where the server answers when it is up.
pub fn health_url(api_url: &str) -> (r: String)
    ensures
        r@ == api_url@ + "/health"@,
{
    text::concat2(api_url, "/health")
}

} // verus!
