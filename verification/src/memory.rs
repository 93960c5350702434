//! The agent's memory: `MEMORY.md` holds entries separated by a `§` line,
//! `USER.md` the user profile, each under a size limit in UTF-8 bytes.
use vstd::prelude::*;
use crate::json::{Json, JsonValue};
use crate::text::{chars_of, join, push_all, push_str, slice, split, string_of, trim};
use crate::text;
use crate::yaml::{utf8_len, utf8_width, utf8_width_exec};

verus! {

/// The largest `MEMORY.md`, in bytes.
pub const MEMORY_CHAR_LIMIT: usize = 2200;

/// The largest `USER.md`, in bytes.
pub const USER_PROFILE_CHAR_LIMIT: usize = 1375;

/// The separator between memory entries: a line holding `§`.
pub open spec fn entry_delimiter() -> Seq<char> {
    seq!['\n', '\u{a7}', '\n']
}

/// One memory entry: its position among the pieces of the file and its text.
pub struct MemoryEntry {
    pub index: usize,
    pub content: String,
}

/// Counts from the session database.
pub struct MemoryStats {
    pub total_sessions: i64,
    pub total_messages: i64,
}

/// The user profile file.
pub struct UserProfile {
    pub content: String,
    pub exists: bool,
    pub last_modified: Option<u64>,
    pub char_count: usize,
    pub char_limit: usize,
}

/// Everything the memory view shows.
pub struct MemoryInfo {
    pub memory: Vec<MemoryEntry>,
    pub user: UserProfile,
    pub stats: MemoryStats,
}

/// The outcome of an edit: success, or an error with its message key.
pub struct MemoryResult {
    pub success: bool,
    pub error: Option<String>,
    pub error_key: Option<String>,
}

// ───────────────────────── entries ─────────────────────────

/// The non-blank pieces of `ps` from position `i` on, trimmed, each with its position.
pub open spec fn entries_from(ps: Seq<Seq<char>>, i: int) -> Seq<(int, Seq<char>)>
    decreases ps.len() - i,
{
    if i < 0 || i >= ps.len() {
        seq![]
    } else if trim(ps[i]).len() == 0 {
        entries_from(ps, i + 1)
    } else {
        seq![(i, trim(ps[i]))] + entries_from(ps, i + 1)
    }
}

/// The entries of a `MEMORY.md` text: none for a blank text, else the
/// non-blank pieces between separators, trimmed, with their positions.
pub open spec fn memory_entries(c: Seq<char>) -> Seq<(int, Seq<char>)> {
    if trim(c).len() == 0 {
        seq![]
    } else {
        entries_from(split(c, entry_delimiter()), 0)
    }
}

pub open spec fn entry_view(e: MemoryEntry) -> (int, Seq<char>) {
    (e.index as int, e.content@)
}

fn delimiter() -> (d: Vec<char>)
    ensures
        d@ == entry_delimiter(),
{
    let d = vec!['\n', '\u{a7}', '\n'];
    assert(d@ =~= entry_delimiter());
    d
}

/// Splits a `MEMORY.md` text into its entries.
pub fn parse_memory_entries(content: &str) -> (r: Vec<MemoryEntry>)
    ensures
        r@.map_values(|e: MemoryEntry| entry_view(e)) == memory_entries(content@),
{
    let c = chars_of(content);
    let t = text::trim_vec(&c);
    let mut r: Vec<MemoryEntry> = Vec::new();
    if t.len() == 0 {
        assert(r@.map_values(|e: MemoryEntry| entry_view(e)) =~= seq![]);
        return r;
    }
    let d = delimiter();
    let ps = text::split_exec(&c, &d);
    let ghost all = split(c@, entry_delimiter());
    let mut i: usize = 0;
    while i < ps.len()
        invariant
            i <= ps.len(),
            ps@.len() == all.len(),
            all == split(c@, entry_delimiter()),
            trim(c@).len() > 0,
            c@ == content@,
            forall|k: int| 0 <= k < ps@.len() ==> #[trigger] ps@[k]@ == all[k],
            r@.map_values(|e: MemoryEntry| entry_view(e)) + entries_from(all, i as int)
                == memory_entries(content@),
        decreases ps.len() - i,
    {
        let p = text::trim_vec(&ps[i]);
        let ghost before = r@.map_values(|e: MemoryEntry| entry_view(e));
        if p.len() > 0 {
            r.push(MemoryEntry { index: i, content: string_of(p.as_slice()) });
            assert(r@.map_values(|e: MemoryEntry| entry_view(e)) =~= before.push((i as int, p@)));
            assert(before.push((i as int, p@)) + entries_from(all, i + 1) =~= before + entries_from(
                all,
                i as int,
            ));
        }
        i += 1;
    }
    assert(r@.map_values(|e: MemoryEntry| entry_view(e)) =~= memory_entries(content@));
    r
}


// ───────────────────────── edits ─────────────────────────

pub open spec fn result_view(r: MemoryResult) -> (bool, Option<Seq<char>>, Option<Seq<char>>) {
    (r.success, crate::settings::opt_string_view(r.error), crate::settings::opt_string_view(r.error_key))
}

pub open spec fn ok_view() -> (bool, Option<Seq<char>>, Option<Seq<char>>) {
    (true, None, None)
}

pub open spec fn fail_view(msg: Seq<char>, key: Seq<char>) -> (bool, Option<Seq<char>>, Option<Seq<char>>) {
    (false, Some(msg), Some(key))
}

pub open spec fn limit_view() -> (bool, Option<Seq<char>>, Option<Seq<char>>) {
    fail_view("Memory limit reached (2200 chars)"@, "memory.limitReached"@)
}

fn ok_result() -> (r: MemoryResult)
    ensures
        result_view(r) == ok_view(),
{
    MemoryResult { success: true, error: None, error_key: None }
}

fn fail_result(msg: &str, key: &str) -> (r: MemoryResult)
    ensures
        result_view(r) == fail_view(msg@, key@),
{
    MemoryResult { success: false, error: Some(text::owned(msg)), error_key: Some(text::owned(key)) }
}

/// Byte length of a text (`str::len`).
pub fn utf8_len_exec(s: &Vec<char>) -> (n: u128)
    ensures
        n == utf8_len(s@),
        n <= 4 * s.len(),
{
    let mut n: u128 = 0;
    let mut i: usize = 0;
    while i < s.len()
        invariant
            i <= s.len(),
            n == utf8_len(s@.take(i as int)),
            n <= 4 * i,
        decreases s.len() - i,
    {
        assert(s@.take(i + 1).drop_last() =~= s@.take(i as int));
        n = n + utf8_width_exec(s[i]);
        i += 1;
    }
    assert(s@.take(s.len() as int) =~= s@);
    n
}

/// A new entry appended to the memory text, on a line of its own.
pub open spec fn appended(existing: Seq<char>, content: Seq<char>) -> Seq<char> {
    existing + (if existing.len() > 0 && existing.last() != '\n' {
        seq!['\n']
    } else {
        seq![]
    }) + content
}

/// An added entry starts on a line of its own and nothing else changes: the
/// new text is the old text, then a line break exactly when the old text is
/// not empty and does not already end with one, then the entry as given.
pub proof fn law_entry_on_own_line(existing: Seq<char>, content: Seq<char>)
    ensures
        ({
            let t = appended(existing, content);
            let gap: int = if existing.len() > 0 && existing.last() != '\n' {
                1
            } else {
                0
            };
            &&& t.len() == existing.len() + gap + content.len()
            &&& t.take(existing.len() as int) == existing
            &&& t.skip(existing.len() + gap) == content
            &&& existing.len() > 0 ==> t[existing.len() + gap - 1] == '\n'
        }),
{
    let t = appended(existing, content);
    let n = existing.len() as int;
    if existing.len() > 0 && existing.last() != '\n' {
        assert(t =~= existing + seq!['\n'] + content);
        assert(t.take(n) =~= existing);
        assert(t.skip(n + 1) =~= content);
        assert(t[n] == '\n');
    } else {
        assert(t =~= existing + content);
        if n > 0 {
            assert(t[n - 1] == existing[n - 1]);
        }
        assert(t.take(n) =~= existing);
        assert(t.skip(n) =~= content);
    }
}

/// Adds an entry to the memory text: refused past the size limit, else the
/// new text to write.
pub fn add_memory_entry(existing: &str, content: &str) -> (r: (MemoryResult, Option<String>))
    ensures
        utf8_len(existing@) + utf8_len(content@) > MEMORY_CHAR_LIMIT ==> result_view(r.0) == limit_view()
            && r.1 is None,
        utf8_len(existing@) + utf8_len(content@) <= MEMORY_CHAR_LIMIT ==> result_view(r.0) == ok_view()
            && (r.1 matches Some(t) && t@ == appended(existing@, content@)),
{
    let e = chars_of(existing);
    let c = chars_of(content);
    if utf8_len_exec(&e) + utf8_len_exec(&c) > 2200 {
        return (fail_result("Memory limit reached (2200 chars)", "memory.limitReached"), None);
    }
    let mut t = e;
    if t.len() > 0 && t[t.len() - 1] != '\n' {
        t.push('\n');
    }
    push_all(&mut t, &c);
    assert(t@ =~= appended(existing@, content@));
    (ok_result(), Some(string_of(t.as_slice())))
}

/// The memory text with entry `index` replaced.
pub open spec fn updated_text(raw: Seq<char>, index: int, content: Seq<char>) -> Seq<char> {
    join(split(raw, entry_delimiter()).update(index, content), entry_delimiter())
}

/// Replaces entry `index` of the memory text (`None` when there is no
/// file): refused when the file or the entry is missing or past the size
/// limit, else the new text to write.
pub fn update_memory_entry(raw: Option<&str>, index: u32, content: &str) -> (r: (MemoryResult, Option<String>))
    ensures
        match raw {
            None => result_view(r.0) == fail_view("Memory file not found"@, "memory.fileNotFound"@)
                && r.1 is None,
            Some(t) => if index >= split(t@, entry_delimiter()).len() {
                result_view(r.0) == fail_view("Index out of range"@, "memory.indexOutOfRange"@) && r.1 is None
            } else if utf8_len(updated_text(t@, index as int, content@)) > MEMORY_CHAR_LIMIT {
                result_view(r.0) == limit_view() && r.1 is None
            } else {
                result_view(r.0) == ok_view() && (r.1 matches Some(n) && n@ == updated_text(
                    t@,
                    index as int,
                    content@,
                ))
            },
        },
{
    let t = match raw {
        None => {
            return (fail_result("Memory file not found", "memory.fileNotFound"), None);
        },
        Some(t) => t,
    };
    let c = chars_of(t);
    let d = delimiter();
    let mut ps = text::split_exec(&c, &d);
    let ghost all = split(c@, entry_delimiter());
    if index as usize >= ps.len() {
        return (fail_result("Index out of range", "memory.indexOutOfRange"), None);
    }
    let cv = chars_of(content);
    let ghost old = ps@;
    ps.set(index as usize, cv);
    assert forall|k: int| 0 <= k < ps@.len() implies #[trigger] ps@[k]@ == all.update(
        index as int,
        content@,
    )[k] by {
        if k != index as int {
            assert(ps@[k] == old[k]);
        }
    }
    assert(ps@.map_values(|p: Vec<char>| p@) =~= all.update(index as int, content@));
    let j = text::join_exec(&ps, &d);
    if utf8_len_exec(&j) > 2200 {
        return (fail_result("Memory limit reached (2200 chars)", "memory.limitReached"), None);
    }
    (ok_result(), Some(string_of(j.as_slice())))
}

/// The memory text without entry `index`, or `None` when there is no file
/// or no such entry (nothing is written).
pub fn remove_memory_entry(raw: Option<&str>, index: u32) -> (r: Option<String>)
    ensures
        match raw {
            None => r is None,
            Some(t) => if index >= split(t@, entry_delimiter()).len() {
                r is None
            } else {
                r matches Some(n) && n@ == join(
                    split(t@, entry_delimiter()).remove(index as int),
                    entry_delimiter(),
                )
            },
        },
{
    let t = match raw {
        None => {
            return None;
        },
        Some(t) => t,
    };
    let c = chars_of(t);
    let d = delimiter();
    let mut ps = text::split_exec(&c, &d);
    let ghost all = split(c@, entry_delimiter());
    if index as usize >= ps.len() {
        return None;
    }
    let ghost old = ps@;
    ps.remove(index as usize);
    assert forall|k: int| 0 <= k < ps@.len() implies #[trigger] ps@[k]@ == all.remove(index as int)[k] by {
        if k < index as int {
            assert(ps@[k] == old[k]);
        } else {
            assert(ps@[k] == old[k + 1]);
        }
    }
    assert(ps@.map_values(|p: Vec<char>| p@) =~= all.remove(index as int));
    let j = text::join_exec(&ps, &d);
    Some(string_of(j.as_slice()))
}

/// The check before writing `USER.md`: refused past its size limit.
pub fn write_user_profile(content: &str) -> (r: MemoryResult)
    ensures
        utf8_len(content@) > USER_PROFILE_CHAR_LIMIT ==> result_view(r) == fail_view(
            "Profile limit reached (1375 chars)"@,
            "memory.profileLimitReached"@,
        ),
        utf8_len(content@) <= USER_PROFILE_CHAR_LIMIT ==> result_view(r) == ok_view(),
{
    let c = chars_of(content);
    if utf8_len_exec(&c) > 1375 {
        fail_result("Profile limit reached (1375 chars)", "memory.profileLimitReached")
    } else {
        ok_result()
    }
}

/// `MEMORY.md` of a profile on the remote host.
pub open spec fn remote_memory_file(profile: Option<Seq<char>>, file: Seq<char>) -> Seq<char> {
    match profile {
        Some(p) => if p != "default"@ {
            "~/.hermes/profiles/"@ + p + "/memories/"@ + file
        } else {
            "~/.hermes/memories/"@ + file
        },
        None => "~/.hermes/memories/"@ + file,
    }
}

fn remote_memory_file_exec(profile: Option<&str>, file: &str) -> (r: String)
    ensures
        r@ == remote_memory_file(crate::paths::opt_view(profile), file@),
{
    match profile {
        Some(p) => if !text::str_eq(p, "default") {
            let mut v = chars_of("~/.hermes/profiles/");
            push_str(&mut v, p);
            push_str(&mut v, "/memories/");
            push_str(&mut v, file);
            string_of(v.as_slice())
        } else {
            text::concat2("~/.hermes/memories/", file)
        },
        None => text::concat2("~/.hermes/memories/", file),
    }
}

pub fn ssh_memory_path(profile: Option<&str>) -> (r: String)
    ensures
        r@ == remote_memory_file(crate::paths::opt_view(profile), "MEMORY.md"@),
{
    remote_memory_file_exec(profile, "MEMORY.md")
}

pub fn ssh_user_path(profile: Option<&str>) -> (r: String)
    ensures
        r@ == remote_memory_file(crate::paths::opt_view(profile), "USER.md"@),
{
    remote_memory_file_exec(profile, "USER.md")
}

/// The memory view of local files (empty texts for missing ones).
pub fn read_memory_local(mem_content: &str, user_content: &str, stats: MemoryStats) -> (r: MemoryInfo)
    requires
        utf8_len(user_content@) <= usize::MAX,
    ensures
        r.memory@.map_values(|e: MemoryEntry| entry_view(e)) == memory_entries(mem_content@),
        r.user.content@ == user_content@,
        r.user.exists == (user_content@.len() > 0),
        r.user.last_modified is None,
        r.user.char_count == utf8_len(user_content@),
        r.user.char_limit == USER_PROFILE_CHAR_LIMIT,
        r.stats == stats,
{
    let u = chars_of(user_content);
    let n = utf8_len_exec(&u);
    MemoryInfo {
        memory: parse_memory_entries(mem_content),
        user: UserProfile {
            content: string_of(u.as_slice()),
            exists: u.len() > 0,
            last_modified: None,
            char_count: n as usize,
            char_limit: USER_PROFILE_CHAR_LIMIT,
        },
        stats,
    }
}


fn str2(raw: &JsonValue, a: &str, b: &str) -> (r: String)
    ensures
        r@ == match raw@.field(a@).field(b@).as_str() {
            Some(s) => s,
            None => seq![],
        },
{
    match crate::json::field2(raw, a, b) {
        Some(x) => match x.as_string() {
            Some(s) => s,
            None => String::new(),
        },
        None => String::new(),
    }
}

/// The memory view built from the JSON that the remote read produced:
/// missing fields fall back to the user text's own facts and the limits.
pub fn read_memory_via_ssh(raw: &JsonValue) -> (r: MemoryInfo)
    ensures
        ({
            let mem = match raw@.field("memory"@).field("content"@).as_str() {
                Some(s) => s,
                None => seq![],
            };
            let user = match raw@.field("user"@).field("content"@).as_str() {
                Some(s) => s,
                None => seq![],
            };
            let u = raw@.field("user"@);
            &&& r.memory@.map_values(|e: MemoryEntry| entry_view(e)) == memory_entries(mem)
            &&& r.user.content@ == user
            &&& r.user.exists == match u.field("exists"@).as_bool() {
                Some(b) => b,
                None => user.len() > 0,
            }
            &&& r.user.last_modified == match u.field("lastModified"@).as_u64() {
                Some(n) => Some(n as u64),
                None => None,
            }
            &&& r.user.char_count == match u.field("charCount"@).as_u64() {
                Some(n) => n as usize,
                None => utf8_len(user) as usize,
            }
            &&& r.user.char_limit == match u.field("charLimit"@).as_u64() {
                Some(n) => n as usize,
                None => USER_PROFILE_CHAR_LIMIT,
            }
            &&& r.stats.total_sessions == match raw@.field("stats"@).field("totalSessions"@).as_i64() {
                Some(n) => n as i64,
                None => 0,
            }
            &&& r.stats.total_messages == match raw@.field("stats"@).field("totalMessages"@).as_i64() {
                Some(n) => n as i64,
                None => 0,
            }
        }),
{
    let mem = str2(raw, "memory", "content");
    let user = str2(raw, "user", "content");
    let uv = chars_of(user.as_str());
    let ulen = utf8_len_exec(&uv);
    let exists = match crate::json::field2(raw, "user", "exists") {
        Some(x) => match x.as_bool() {
            Some(b) => b,
            None => uv.len() > 0,
        },
        None => uv.len() > 0,
    };
    let last_modified = match crate::json::field2(raw, "user", "lastModified") {
        Some(x) => x.as_u64(),
        None => None,
    };
    let char_count: usize = match crate::json::field2(raw, "user", "charCount") {
        Some(x) => match x.as_u64() {
            Some(n) => n as usize,
            None => ulen as usize,
        },
        None => ulen as usize,
    };
    let char_limit: usize = match crate::json::field2(raw, "user", "charLimit") {
        Some(x) => match x.as_u64() {
            Some(n) => n as usize,
            None => USER_PROFILE_CHAR_LIMIT,
        },
        None => USER_PROFILE_CHAR_LIMIT,
    };
    let total_sessions: i64 = match crate::json::field2(raw, "stats", "totalSessions") {
        Some(x) => match x.as_i64() {
            Some(n) => n,
            None => 0,
        },
        None => 0,
    };
    let total_messages: i64 = match crate::json::field2(raw, "stats", "totalMessages") {
        Some(x) => match x.as_i64() {
            Some(n) => n,
            None => 0,
        },
        None => 0,
    };
    MemoryInfo {
        memory: parse_memory_entries(mem.as_str()),
        user: UserProfile { content: user, exists, last_modified, char_count, char_limit },
        stats: MemoryStats { total_sessions, total_messages },
    }
}

} // verus!
