//! Reading and editing the settings files of a profile: values of
//! `config.yaml` by dotted key, the `.env` variables, and the choice of the
//! local API server key.
use vstd::prelude::*;
use crate::kv::StrMap;
use crate::config::CredentialEntry;
use crate::json::{
    entries_view, find_key, items_view, json_copy, json_parse, lemma_obj_insert_get, obj_get, obj_insert, obj_insert_exec,
    parse_json, Json, JsonValue,
};
use crate::sse::{run_len, run_len_exec};
use crate::text::{
    chars_of, contains_sub, find_sub, join, lines, matches_at, matches_at_exec, push_all, push_str,
    slice, starts_with, string_of, trim,
};
use crate::text;
use crate::yaml::{
    find_top_level_key, find_yaml_path, line_sep, lone_quote, path_segments, path_segments_exec,
    top_level_hit, unquote, yaml_path_hit, SegHit, at_line_start, blank_len, blank_trim_end,
    first_line_match, hash_pos, is_blank, lemma_blank_len_props, line_end, line_value, key_pos, key_pos_from, next_line,
    seg_hit, seg_search, walk, ws_indent,
};

verus! {

// ───────────────────────── config.yaml values ─────────────────────────

/// The line a configuration key names: a single segment is a top-level key,
/// several are a dotted path.
pub open spec fn config_hit(c: Seq<char>, key: Seq<char>) -> Option<SegHit> {
    let segs = path_segments(key);
    if segs.len() == 1 {
        top_level_hit(c, segs[0])
    } else {
        yaml_path_hit(c, key)
    }
}

/// The value found there is no lone quote, on which quote removal stops.
pub open spec fn config_readable(c: Seq<char>, key: Seq<char>) -> bool {
    config_hit(c, key) matches Some(h) ==> !lone_quote(h.raw)
}

pub open spec fn hit_value(h: Option<SegHit>) -> Option<Seq<char>> {
    match h {
        Some(x) => Some(unquote(x.raw)),
        None => None,
    }
}

pub open spec fn opt_string_view(o: Option<String>) -> Option<Seq<char>> {
    match o {
        Some(s) => Some(s@),
        None => None,
    }
}

/// The value of a configuration key in a `config.yaml` text.
pub fn get_config_value(content: &str, key: &str) -> (r: Option<String>)
    requires
        config_readable(content@, key@),
    ensures
        opt_string_view(r) == hit_value(config_hit(content@, key@)),
{
    let kv = chars_of(key);
    let segs = path_segments_exec(&kv);
    if segs.len() == 1 {
        let seg = string_of(segs[0].as_slice());
        match find_top_level_key(content, seg.as_str()) {
            Some(h) => Some(h.value),
            None => None,
        }
    } else {
        match find_yaml_path(content, key) {
            Some(h) => Some(h.value),
            None => None,
        }
    }
}

/// The text after setting a configuration key to `"value"`: the found value
/// replaced; a missing top-level key appended; a missing nested path left
/// out. `None` for a key without segments, where nothing is written.
pub open spec fn config_set(c: Seq<char>, key: Seq<char>, value: Seq<char>) -> Option<Seq<char>> {
    let segs = path_segments(key);
    if segs.len() == 0 {
        None
    } else {
        match config_hit(c, key) {
            Some(h) => Some(c.take(h.value_start) + seq!['"'] + value + seq!['"'] + c.skip(h.value_end)),
            None => if segs.len() == 1 {
                Some(c + line_sep(c) + key + ": \""@ + value + "\"\n"@)
            } else {
                Some(c)
            },
        }
    }
}

/// Whether a configuration key can be read from a `config.yaml` text: the
/// value found there is no lone quote.
pub fn config_value_readable(content: &str, key: &str) -> (b: bool)
    ensures
        b == config_readable(content@, key@),
{
    let kv = chars_of(key);
    let segs = path_segments_exec(&kv);
    let raw = if segs.len() == 1 {
        let seg = string_of(segs[0].as_slice());
        crate::yaml::top_level_raw(content, seg.as_str())
    } else {
        crate::yaml::yaml_path_raw(content, key)
    };
    match raw {
        Some(v) => !crate::yaml::is_lone_quote(v.as_str()),
        None => true,
    }
}

/// Sets a configuration key in a `config.yaml` text.
pub fn set_config_value(content: &str, key: &str, value: &str) -> (r: Option<String>)
    requires
        config_readable(content@, key@),
    ensures
        opt_string_view(r) == config_set(content@, key@, value@),
{
    let kv = chars_of(key);
    let segs = path_segments_exec(&kv);
    if segs.len() == 0 {
        return None;
    }
    let c = chars_of(content);
    let hit = if segs.len() == 1 {
        let seg = string_of(segs[0].as_slice());
        find_top_level_key(content, seg.as_str())
    } else {
        find_yaml_path(content, key)
    };
    match hit {
        Some(h) => {
            let mut r = slice(&c, 0, h.value_start);
            r.push('"');
            push_str(&mut r, value);
            r.push('"');
            let tail = slice(&c, h.value_end, c.len());
            push_all(&mut r, &tail);
            assert(r@ =~= c@.take(h.value_start as int) + seq!['"'] + value@ + seq!['"'] + c@.skip(
                h.value_end as int,
            ));
            Some(string_of(r.as_slice()))
        },
        None => {
            let mut r = slice(&c, 0, c.len());
            if segs.len() == 1 {
                if !(c.len() == 0 || c[c.len() - 1] == '\n') {
                    r.push('\n');
                }
                push_str(&mut r, key);
                push_str(&mut r, ": \"");
                push_str(&mut r, value);
                push_str(&mut r, "\"\n");
                assert(r@ =~= c@ + line_sep(c@) + key@ + ": \""@ + value@ + "\"\n"@);
            } else {
                assert(r@ =~= c@);
            }
            Some(string_of(r.as_slice()))
        },
    }
}

// ───────────────────────── .env ─────────────────────────

/// An ASCII letter or digit.
pub open spec fn is_ascii_alnum(c: char) -> bool {
    ('a' <= c && c <= 'z') || ('A' <= c && c <= 'Z') || ('0' <= c && c <= '9')
}

/// A valid variable name: letters, digits and `_`, not starting with a digit.
pub open spec fn valid_env_key(k: Seq<char>) -> bool {
    &&& k.len() > 0
    &&& forall|i: int| 0 <= i < k.len() ==> is_ascii_alnum(#[trigger] k[i]) || k[i] == '_'
    &&& (('a' <= k[0] && k[0] <= 'z') || ('A' <= k[0] && k[0] <= 'Z') || k[0] == '_')
}

/// The check on `.env` variable names.
pub struct EnvKeyRe;

impl EnvKeyRe {
    /// Whether `key` is a valid variable name.
    pub fn test(key: &str) -> (b: bool)
        ensures
            b == valid_env_key(key@),
    {
        let k = chars_of(key);
        if k.len() == 0 {
            return false;
        }
        let mut i: usize = 0;
        while i < k.len()
            invariant
                i <= k.len(),
                k@ == key@,
                forall|j: int| 0 <= j < i ==> is_ascii_alnum(#[trigger] k@[j]) || k@[j] == '_',
            decreases k.len() - i,
        {
            let c = k[i];
            if !(('a' <= c && c <= 'z') || ('A' <= c && c <= 'Z') || ('0' <= c && c <= '9') || c
                == '_') {
                return false;
            }
            i += 1;
        }
        let c0 = k[0];
        ('a' <= c0 && c0 <= 'z') || ('A' <= c0 && c0 <= 'Z') || c0 == '_'
    }
}

/// A value without one pair of matching surrounding quotes.
pub open spec fn env_unquote(v: Seq<char>) -> Seq<char> {
    if v.len() >= 2 && ((v[0] == '"' && v.last() == '"') || (v[0] == '\'' && v.last() == '\'')) {
        v.subrange(1, v.len() - 1)
    } else {
        v
    }
}

/// A value that is a single quote character, on which quote removal takes
/// the slice `v[1..0]`.
pub open spec fn env_lone_quote(v: Seq<char>) -> bool {
    v == seq!['"'] || v == seq!['\'']
}

/// The `KEY=VALUE` assignments of the lines of a `.env` text in order:
/// comments and lines without `=` are skipped, key and value are trimmed
/// and the value loses a pair of matching quotes; `None` where a value is a
/// lone quote.
pub open spec fn env_pairs(ls: Seq<Seq<char>>) -> Option<Seq<(Seq<char>, Seq<char>)>>
    decreases ls.len(),
{
    if ls.len() == 0 {
        Some(seq![])
    } else {
        match env_pairs(ls.drop_last()) {
            None => None,
            Some(prev) => match env_line_spec(ls.last()) {
                None => Some(prev),
                Some(kv) => if env_lone_quote(kv.1) {
                    None
                } else {
                    Some(prev.push((kv.0, env_unquote(kv.1))))
                },
            },
        }
    }
}

pub open spec fn pairs_map(s: Seq<(Seq<char>, Seq<char>)>) -> Map<Seq<char>, Seq<char>>
    decreases s.len(),
{
    if s.len() == 0 {
        Map::empty()
    } else {
        pairs_map(s.drop_last()).insert(s.last().0, s.last().1)
    }
}

/// The variables of a `.env` text, a later assignment replacing an earlier.
pub open spec fn env_vars(content: Seq<char>) -> Option<Map<Seq<char>, Seq<char>>> {
    match env_pairs(lines(content)) {
        Some(p) => Some(pairs_map(p)),
        None => None,
    }
}

/// The trimmed key and value of an assignment line.
pub open spec fn env_line_spec(l: Seq<char>) -> Option<(Seq<char>, Seq<char>)> {
    let t = trim(l);
    if starts_with(t, seq!['#']) || !contains_sub(t, seq!['=']) {
        None
    } else {
        let i = find_sub(t, seq!['='])->0;
        Some((trim(t.take(i)), trim(t.skip(i + 1))))
    }
}

fn env_line(l: &Vec<char>) -> (r: Option<(Vec<char>, Vec<char>)>)
    ensures
        match r {
            Some(kv) => env_line_spec(l@) == Some((kv.0@, kv.1@)),
            None => env_line_spec(l@) is None,
        },
{
    let t = text::trim_vec(l);
    let hash: Vec<char> = vec!['#'];
    assert(hash@ =~= seq!['#']);
    if text::starts_with_exec(&t, &hash) {
        return None;
    }
    let eq: Vec<char> = vec!['='];
    assert(eq@ =~= seq!['=']);
    assert(t@.skip(0) =~= t@);
    match text::find_from(&t, &eq, 0) {
        Some(j) => {
            proof {
                text::lemma_find_sub(t@, seq!['=']);
            }
            let k = text::trim_range(&t, 0, j);
            let v = text::trim_range(&t, j + 1, t.len());
            proof {
                assert(t@.subrange(0, j as int) =~= t@.take(j as int));
                assert(t@.subrange(j + 1, t@.len() as int) =~= t@.skip(j + 1));
            }
            Some((k, v))
        },
        None => None,
    }
}

/// Parses the text of a `.env` file.
pub fn parse_env(content: &str) -> (r: StrMap)
    requires
        env_vars(content@) is Some,
    ensures
        env_vars(content@) == Some(r@),
{
    let c = chars_of(content);
    let ls = text::lines_exec(&c);
    let ghost all = lines(c@);
    let mut m = StrMap::new();
    let ghost mut pairs: Seq<(Seq<char>, Seq<char>)> = seq![];
    let mut i: usize = 0;
    proof {
        lemma_env_pairs_prefix(all, all.len() as int);
        assert(all.take(all.len() as int) =~= all);
    }
    while i < ls.len()
        invariant
            i <= ls.len(),
            all == lines(c@),
            c@ == content@,
            ls@.len() == all.len(),
            forall|k: int| 0 <= k < ls@.len() ==> #[trigger] ls@[k]@ == all[k],
            env_pairs(all.take(i as int)) == Some(pairs),
            forall|n: int| 0 <= n <= all.len() ==> #[trigger] env_pairs(all.take(n)) is Some,
            m@ == pairs_map(pairs),
        decreases ls.len() - i,
    {
        proof {
            assert(all.take(i + 1).drop_last() =~= all.take(i as int));
            assert(all.take(i + 1).last() == ls@[i as int]@);
            assert(env_pairs(all.take(i + 1)) is Some);
        }
        match env_line(&ls[i]) {
            Some((k, v)) => {
                let uv = if v.len() >= 2 && ((v[0] == '"' && v[v.len() - 1] == '"') || (v[0] == '\''
                    && v[v.len() - 1] == '\'')) {
                    slice(&v, 1, v.len() - 1)
                } else {
                    slice(&v, 0, v.len())
                };
                proof {
                    assert(uv@ =~= env_unquote(v@));
                    let old_pairs = pairs;
                    pairs = pairs.push((k@, uv@));
                    assert(pairs.drop_last() =~= old_pairs);
                }
                m.insert(string_of(k.as_slice()), string_of(uv.as_slice()));
            },
            None => {},
        }
        i += 1;
    }
    assert(all.take(ls.len() as int) =~= all);
    m
}

/// Whether a `.env` text can be read: no assignment's value is a lone quote.
pub fn env_readable(content: &str) -> (b: bool)
    ensures
        b == (env_vars(content@) is Some),
{
    let c = chars_of(content);
    let ls = text::lines_exec(&c);
    let ghost all = lines(c@);
    let mut i: usize = 0;
    assert(all.take(0) =~= seq![]);
    while i < ls.len()
        invariant
            i <= ls.len(),
            all == lines(c@),
            c@ == content@,
            ls@.len() == all.len(),
            forall|k: int| 0 <= k < ls@.len() ==> #[trigger] ls@[k]@ == all[k],
            env_pairs(all.take(i as int)) is Some,
        decreases ls.len() - i,
    {
        proof {
            assert(all.take(i + 1).drop_last() =~= all.take(i as int));
            assert(all.take(i + 1).last() == ls@[i as int]@);
        }
        match env_line(&ls[i]) {
            Some((_k, v)) => {
                if v.len() == 1 && (v[0] == '"' || v[0] == '\'') {
                    proof {
                        if v[0] == '"' {
                            assert(v@ =~= seq!['"']);
                        } else {
                            assert(v@ =~= seq!['\'']);
                        }
                        assert(env_pairs(all.take(i + 1)) is None);
                        lemma_env_pairs_prefix(all, all.len() as int);
                        assert(all.take(all.len() as int) =~= all);
                        if env_pairs(all) is Some {
                            assert(env_pairs(all.take(i + 1)) is Some);
                        }
                    }
                    return false;
                }
                proof {
                    assert(!env_lone_quote(v@));
                }
            },
            None => {},
        }
        i += 1;
    }
    assert(all.take(ls.len() as int) =~= all);
    true
}

/// A prefix of the lines of a readable `.env` is readable.
pub proof fn lemma_env_pairs_prefix(ls: Seq<Seq<char>>, n: int)
    requires
        0 <= n <= ls.len(),
    ensures
        env_pairs(ls) is Some ==> forall|k: int| 0 <= k <= n ==> #[trigger] env_pairs(ls.take(k)) is Some,
    decreases n,
{
    if n > 0 {
        lemma_env_pairs_prefix(ls, n - 1);
        if env_pairs(ls) is Some {
            lemma_env_pairs_take(ls, n);
        }
    } else if env_pairs(ls) is Some {
        lemma_env_pairs_take(ls, 0);
    }
}

pub proof fn lemma_env_pairs_take(ls: Seq<Seq<char>>, n: int)
    requires
        0 <= n <= ls.len(),
        env_pairs(ls) is Some,
    ensures
        env_pairs(ls.take(n)) is Some,
    decreases ls.len() - n,
{
    if n == ls.len() {
        assert(ls.take(n) =~= ls);
    } else {
        let t = ls.take(n + 1);
        lemma_env_pairs_take(ls, n + 1);
        assert(t.drop_last() =~= ls.take(n));
    }
}

/// The line assigns `key` (possibly commented out): `^#?\s*key\s*=`.
pub open spec fn assigns_key(l: Seq<char>, key: Seq<char>) -> bool {
    let a: int = if l.len() > 0 && l[0] == '#' {
        1
    } else {
        0
    };
    let b = a + run_len(l.skip(a), true);
    let e = b + key.len();
    let f = e + run_len(l.skip(e), true);
    matches_at(l, key, b) && f < l.len() && l[f] == '='
}

/// The first line that assigns `key`.
pub open spec fn first_assign(ls: Seq<Seq<char>>, key: Seq<char>, i: int) -> Option<int>
    decreases ls.len() - i,
{
    if i < 0 || i >= ls.len() {
        None
    } else if assigns_key(ls[i], key) {
        Some(i)
    } else {
        first_assign(ls, key, i + 1)
    }
}

/// The new `.env` text that sets `key=value`: the first line assigning the
/// key (a commented one too) replaced, or the line added at the end; lines
/// are joined by `\n`. A new file holds just the line and a line break.
pub open spec fn env_set(content: Option<Seq<char>>, key: Seq<char>, value: Seq<char>) -> Seq<char> {
    let line = key + seq!['='] + value;
    match content {
        None => line + seq!['\n'],
        Some(c) => {
            let ls = lines(c);
            match first_assign(ls, key, 0) {
                Some(i) => join(ls.update(i, line), seq!['\n']),
                None => join(ls.push(line), seq!['\n']),
            }
        },
    }
}

/// Whether a value fits on one line: no NUL, carriage return or line feed.
pub open spec fn single_line(v: Seq<char>) -> bool {
    !contains_sub(v, seq!['\0']) && !contains_sub(v, seq!['\r']) && !contains_sub(v, seq!['\n'])
}

fn assigns_key_exec(l: &Vec<char>, key: &Vec<char>) -> (b: bool)
    ensures
        b == assigns_key(l@, key@),
{
    let a: usize = if l.len() > 0 && l[0] == '#' {
        1
    } else {
        0
    };
    let n = l.len();
    assert(l@.subrange(a as int, n as int) =~= l@.skip(a as int));
    let b = a + run_len_exec(l, a, n, true);
    if !matches_at_exec(l, key, b) {
        return false;
    }
    let e = b + key.len();
    assert(l@.subrange(e as int, n as int) =~= l@.skip(e as int));
    let f = e + run_len_exec(l, e, n, true);
    f < n && l[f] == '='
}

fn first_assign_exec(ls: &Vec<Vec<char>>, kv: &Vec<char>, Ghost(all): Ghost<Seq<Seq<char>>>) -> (r:
    Option<usize>)
    requires
        ls@.len() == all.len(),
        forall|k: int| 0 <= k < ls@.len() ==> #[trigger] ls@[k]@ == all[k],
    ensures
        match r {
            Some(i) => first_assign(all, kv@, 0) == Some(i as int) && i < ls@.len(),
            None => first_assign(all, kv@, 0) is None,
        },
{
    let mut i: usize = 0;
    while i < ls.len()
        invariant
            i <= ls.len(),
            ls@.len() == all.len(),
            forall|k: int| 0 <= k < ls@.len() ==> #[trigger] ls@[k]@ == all[k],
            first_assign(all, kv@, 0) == first_assign(all, kv@, i as int),
        decreases ls.len() - i,
    {
        if assigns_key_exec(&ls[i], kv) {
            return Some(i);
        }
        i += 1;
    }
    None
}

/// The `.env` text after setting a variable, given the current text (`None`
/// when the file does not exist): an error for an invalid name or a value
/// with a line break.
pub fn set_env(content: Option<&str>, key: &str, value: &str) -> (r: Result<String, String>)
    ensures
        !valid_env_key(key@) ==> (r matches Err(e) && e@ == "config.invalidEnvKeyName"@),
        valid_env_key(key@) && !single_line(value@) ==> (r matches Err(e) && e@
            == "config.envValueMustBeSingleLine"@),
        valid_env_key(key@) && single_line(value@) ==> (r matches Ok(t) && t@ == env_set(
            crate::paths::opt_view(content),
            key@,
            value@,
        )),
{
    if !EnvKeyRe::test(key) {
        return Err(String::from_str("config.invalidEnvKeyName"));
    }
    proof {
        reveal_strlit("\0");
        reveal_strlit("\r");
        reveal_strlit("\n");
        assert("\0"@ =~= seq!['\0']);
        assert("\r"@ =~= seq!['\r']);
        assert("\n"@ =~= seq!['\n']);
    }
    if text::str_contains(value, "\0") || text::str_contains(value, "\r") || text::str_contains(
        value,
        "\n",
    ) {
        proof {
            reveal_strlit("\0");
            reveal_strlit("\r");
            reveal_strlit("\n");
        }
        return Err(String::from_str("config.envValueMustBeSingleLine"));
    }
    proof {
        reveal_strlit("\0");
        reveal_strlit("\r");
        reveal_strlit("\n");
    }
    let mut line = chars_of(key);
    line.push('=');
    push_str(&mut line, value);
    assert(line@ =~= key@ + seq!['='] + value@);
    match content {
        None => {
            let mut r = slice(&line, 0, line.len());
            r.push('\n');
            assert(r@ =~= line@ + seq!['\n']);
            Ok(string_of(r.as_slice()))
        },
        Some(text) => {
            let c = chars_of(text);
            let kv = chars_of(key);
            let mut ls = text::lines_exec(&c);
            let ghost all = lines(c@);
            let idx = first_assign_exec(&ls, &kv, Ghost(all));
            let ghost views = ls@.map_values(|p: Vec<char>| p@);
            assert(views =~= all);
            if let Some(i) = idx {
                let l2 = slice(&line, 0, line.len());
                let ghost old = ls@;
                ls.set(i, l2);
                assert forall|k: int| 0 <= k < ls@.len() implies #[trigger] ls@[k]@ == all.update(
                    i as int,
                    line@,
                )[k] by {
                    if k != i {
                        assert(ls@[k] == old[k]);
                    }
                }
                assert(ls@.map_values(|p: Vec<char>| p@) =~= all.update(i as int, line@));
            } else {
                let l2 = slice(&line, 0, line.len());
                let ghost old = ls@;
                ls.push(l2);
                assert forall|k: int| 0 <= k < ls@.len() implies #[trigger] ls@[k]@ == all.push(
                    line@,
                )[k] by {
                    if k < old.len() {
                        assert(ls@[k] == old[k]);
                    }
                }
                assert(ls@.map_values(|p: Vec<char>| p@) =~= all.push(line@));
            }
            let nl: Vec<char> = vec!['\n'];
            assert(nl@ =~= seq!['\n']);
            let j = text::join_exec(&ls, &nl);
            Ok(string_of(j.as_slice()))
        },
    }
}

// ───────────────────────── reading back a written variable ─────────────────────────

/// `trim_start` of a text with one more character at the end.
proof fn lemma_trim_start_push(s: Seq<char>, c: char)
    ensures
        text::trim_start(s.push(c)) == (if text::trim_start(s).len() == 0 && text::is_ws(c) {
            Seq::<char>::empty()
        } else {
            text::trim_start(s).push(c)
        }),
    decreases s.len(),
{
    if s.len() > 0 {
        assert(s.push(c)[0] == s[0]);
    }
    if s.len() > 0 && text::is_ws(s[0]) {
        assert(s.push(c).drop_first() =~= s.drop_first().push(c));
        lemma_trim_start_push(s.drop_first(), c);
    } else if s.len() == 0 {
        assert(s.push(c) =~= seq![c]);
        assert(seq![c].drop_first() =~= Seq::<char>::empty());
        assert(text::trim_start(Seq::<char>::empty()) == Seq::<char>::empty());
    }
}

/// A final white-space character does not change the trimmed text.
proof fn lemma_trim_drop_ws(l: Seq<char>)
    requires
        l.len() > 0,
        text::is_ws(l.last()),
    ensures
        trim(l.drop_last()) == trim(l),
{
    let s = l.drop_last();
    assert(s.push(l.last()) =~= l);
    lemma_trim_start_push(s, l.last());
    let ts = text::trim_start(s);
    if ts.len() > 0 {
        assert(ts.push(l.last()).drop_last() =~= ts);
    }
}

/// A line with its final `'\r'` dropped trims alike.
proof fn lemma_trim_strip_cr(l: Seq<char>)
    ensures
        trim(text::strip_cr(l)) == trim(l),
{
    if l.len() > 0 && l.last() == '\r' {
        lemma_trim_drop_ws(l);
    }
}

/// `trim_end` of a text after a part that ends in a character that is not
/// white space.
proof fn lemma_trim_end_after(x: Seq<char>, y: Seq<char>)
    requires
        x.len() > 0,
        !text::is_ws(x.last()),
    ensures
        text::trim_end(x + y) == x + text::trim_end(y),
    decreases y.len(),
{
    if y.len() > 0 && text::is_ws(y.last()) {
        assert((x + y).drop_last() =~= x + y.drop_last());
        lemma_trim_end_after(x, y.drop_last());
    } else if y.len() == 0 {
        assert(x + y =~= x);
        assert(text::trim_end(x) == x);
    } else {
        assert((x + y).last() == y.last());
    }
}

/// Trimming the end first gives the same trimmed text.
proof fn lemma_trim_of_trim_end(v: Seq<char>)
    ensures
        trim(text::trim_end(v)) == trim(v),
{
    text::lemma_trim_start_is_suffix(v);
    text::lemma_trim_end_is_prefix(v);
    let w: int = v.len() - text::trim_start(v).len();
    let n: int = text::trim_end(v).len() as int;
    if w == v.len() {
        // all white space
        assert forall|j: int| 0 <= j < n implies text::is_ws(#[trigger] text::trim_end(v)[j]) by {
            assert(text::trim_end(v)[j] == v[j]);
        }
        text::lemma_trim_start_char(text::trim_end(v), n);
        text::lemma_trim_start_char(v, w);
        assert(text::trim_end(v).skip(n) =~= Seq::<char>::empty());
        assert(v.skip(w) =~= Seq::<char>::empty());
    } else {
        assert(v[w] == text::trim_start(v)[0]);
        assert(w < n) by {
            if n <= w {
                assert(text::is_ws(v[w]));
            }
        }
        let e = text::trim_end(v);
        assert(e[n - 1] == v[n - 1]);
        assert forall|j: int| 0 <= j < w implies text::is_ws(#[trigger] e[j]) by {
            assert(e[j] == v[j]);
        }
        assert(e[w] == v[w]);
        text::lemma_trim_start_char(e, w);
        text::lemma_trim_start_char(v, w);
        let a = e.skip(w);
        let b = v.skip(w);
        assert forall|j: int| n - w <= j < b.len() implies text::is_ws(#[trigger] b[j]) by {
            assert(b[j] == v[w + j]);
        }
        assert(b[n - w - 1] == v[n - 1]);
        text::lemma_trim_end_char(b, n - w);
        assert(a.len() == n - w);
        assert(a[n - w - 1] == v[n - 1]);
        text::lemma_trim_end_char(a, n - w);
        assert(a.take(n - w) =~= b.take(n - w));
    }
}

/// The assignment written for a valid name reads as that name and the
/// trimmed value.
proof fn lemma_written_line(key: Seq<char>, value: Seq<char>)
    requires
        valid_env_key(key),
    ensures
        env_line_spec(key + seq!['='] + value) == Some((key, trim(value))),
{
    let x = key + seq!['='];
    let line = x + value;
    assert(key + seq!['='] + value == line);
    assert(x.last() == '=');
    lemma_trim_end_after(x, value);
    assert forall|j: int| 0 <= j < key.len() implies !text::is_ws(#[trigger] key[j]) && key[j] != '=' by {
        assert(is_ascii_alnum(key[j]) || key[j] == '_');
    }
    assert(line[0] == key[0]);
    text::lemma_trim_start_char(line, 0);
    assert(line.skip(0) =~= line);
    let t = x + text::trim_end(value);
    assert(trim(line) == t);
    assert(!starts_with(t, seq!['#'])) by {
        assert(t.take(1)[0] == key[0]);
    }
    let kl: int = key.len() as int;
    assert(matches_at(t, seq!['='], kl)) by {
        assert(t.subrange(kl, kl + 1) =~= seq!['=']);
    }
    assert forall|j: int| 0 <= j < kl implies !matches_at(t, seq!['='], j) by {
        assert(t.subrange(j, j + 1)[0] == key[j]);
    }
    text::lemma_find_sub_first(t, seq!['='], kl);
    assert(t.take(kl) =~= key);
    assert(t.skip(kl + 1) =~= text::trim_end(value));
    lemma_trim_fixed(key);
    lemma_trim_of_trim_end(value);
}

/// The assignments of two runs of lines one after the other.
proof fn lemma_env_pairs_concat(a: Seq<Seq<char>>, b: Seq<Seq<char>>)
    ensures
        env_pairs(a + b) == (match env_pairs(a) {
            Some(p) => match env_pairs(b) {
                Some(q) => Some(p + q),
                None => None,
            },
            None => None,
        }),
    decreases b.len(),
{
    if b.len() == 0 {
        assert(a + b =~= a);
        if let Some(p) = env_pairs(a) {
            assert(p + Seq::<(Seq<char>, Seq<char>)>::empty() =~= p);
        }
    } else {
        assert((a + b).drop_last() =~= a + b.drop_last());
        assert((a + b).last() == b.last());
        lemma_env_pairs_concat(a, b.drop_last());
        if let Some(p) = env_pairs(a) {
            if let Some(q) = env_pairs(b.drop_last()) {
                if let Some(kv) = env_line_spec(b.last()) {
                    let x = (kv.0, env_unquote(kv.1));
                    assert((p + q).push(x) =~= p + q.push(x));
                }
            }
        }
    }
}

/// The lines of a text hold no line feed.
proof fn lemma_lines_no_newline(s: Seq<char>)
    ensures
        forall|k: int, j: int|
            0 <= k < lines(s).len() && 0 <= j < lines(s)[k].len() ==> #[trigger] lines(s)[k][j] != '\n',
    decreases s.len(),
{
    if s.len() > 0 {
        text::lemma_find_sub(s, seq!['\n']);
        match find_sub(s, seq!['\n']) {
            Some(i) => {
                text::lemma_lines_step(s, i);
                lemma_lines_no_newline(s.skip(i + 1));
                let x = s.take(i);
                assert forall|j: int| 0 <= j < x.len() implies #[trigger] x[j] != '\n' by {
                    assert(x[j] == s[j]);
                    if x[j] == '\n' {
                        assert(s.subrange(j, j + 1) =~= seq!['\n']);
                        assert(matches_at(s, seq!['\n'], j));
                    }
                }
                let ls = lines(s);
                assert forall|k: int, j: int| 0 <= k < ls.len() && 0 <= j < ls[k].len() implies #[trigger] ls[k][j]
                    != '\n' by {
                    if k == 0 {
                        assert(ls[0] == text::strip_cr(x));
                        assert(ls[0][j] == x[j]);
                    } else {
                        assert(ls[k] == lines(s.skip(i + 1))[k - 1]);
                    }
                }
            },
            None => {
                assert forall|j: int| 0 <= j < s.len() implies #[trigger] s[j] != '\n' by {
                    if s[j] == '\n' {
                        assert(s.subrange(j, j + 1) =~= seq!['\n']);
                        assert(matches_at(s, seq!['\n'], j));
                    }
                }
            },
        }
    }
}

/// Lines joined by line feeds and split again hold the same assignments.
proof fn lemma_env_pairs_rejoined(ls: Seq<Seq<char>>)
    requires
        forall|k: int, j: int| 0 <= k < ls.len() && 0 <= j < ls[k].len() ==> #[trigger] ls[k][j] != '\n',
    ensures
        env_pairs(lines(join(ls, seq!['\n']))) == env_pairs(ls),
    decreases ls.len(),
{
    let nl = seq!['\n'];
    if ls.len() == 0 {
        assert(lines(join(ls, nl)) =~= Seq::<Seq<char>>::empty());
        assert(ls =~= Seq::<Seq<char>>::empty());
    } else {
        let x = ls[0];
        assert forall|j: int| 0 <= j && j + 1 <= x.len() implies !matches_at(x, nl, j) by {
            assert(x.subrange(j, j + 1)[0] == x[j]);
            assert(ls[0][j] != '\n');
        }
        lemma_trim_strip_cr(x);
        assert(env_pairs(seq![text::strip_cr(x)]) == env_pairs(seq![x])) by {
            assert(seq![text::strip_cr(x)].drop_last() =~= Seq::<Seq<char>>::empty());
            assert(seq![x].drop_last() =~= Seq::<Seq<char>>::empty());
        }
        if ls.len() == 1 {
            assert(join(ls, nl) == x);
            if x.len() == 0 {
                assert(lines(x) =~= Seq::<Seq<char>>::empty());
                assert(trim(x) =~= Seq::<char>::empty());
                text::lemma_find_sub_none(trim(x), seq!['=']);
                assert(env_line_spec(x) is None);
                assert(ls.drop_last() =~= Seq::<Seq<char>>::empty());
            } else {
                text::lemma_find_sub_none(x, nl);
                assert(lines(x) == seq![x]);
                assert(ls =~= seq![x]);
            }
        } else {
            let rest = ls.drop_first();
            assert(ls =~= seq![x] + rest);
            text::lemma_join_front(x, rest, nl);
            let s = join(ls, nl);
            let xl: int = x.len() as int;
            assert(s.subrange(xl, xl + 1) =~= nl);
            assert forall|j: int| 0 <= j < xl implies !matches_at(s, nl, j) by {
                assert(s.subrange(j, j + 1)[0] == x[j]);
                assert(ls[0][j] != '\n');
            }
            text::lemma_find_sub_first(s, nl, xl);
            text::lemma_lines_step(s, xl);
            assert(s.take(xl) =~= x);
            assert(s.skip(xl + 1) =~= join(rest, nl));
            assert forall|k: int, j: int| 0 <= k < rest.len() && 0 <= j < rest[k].len() implies #[trigger] rest[k][j]
                != '\n' by {
                assert(rest[k] == ls[k + 1]);
            }
            lemma_env_pairs_rejoined(rest);
            lemma_env_pairs_concat(seq![text::strip_cr(x)], lines(join(rest, nl)));
            lemma_env_pairs_concat(seq![x], rest);
        }
    }
}

/// The line is read as an assignment of `name`.
pub open spec fn reads_as(l: Seq<char>, name: Seq<char>) -> bool {
    env_line_spec(l) matches Some(kv) && kv.0 == name
}

/// The line that an assignment read comes from: it is read as an
/// assignment of the same name.
proof fn lemma_env_pair_source(ls: Seq<Seq<char>>, m: int) -> (j: int)
    requires
        env_pairs(ls) is Some,
        0 <= m < env_pairs(ls)->0.len(),
    ensures
        0 <= j < ls.len(),
        reads_as(ls[j], env_pairs(ls)->0[m].0),
    decreases ls.len(),
{
    let init = ls.drop_last();
    let p = env_pairs(ls)->0;
    let q = env_pairs(init)->0;
    if m < q.len() {
        assert(p[m] == q[m]);
        let j = lemma_env_pair_source(init, m);
        assert(init[j] == ls[j]);
        j
    } else {
        let kv = env_line_spec(ls.last())->0;
        assert(p == q.push((kv.0, env_unquote(kv.1))));
        ls.len() - 1
    }
}

/// Assignments of other names after the last one of `k` leave its value.
proof fn lemma_pairs_map_after(s: Seq<(Seq<char>, Seq<char>)>, t: Seq<(Seq<char>, Seq<char>)>, k: Seq<char>)
    requires
        forall|m: int| 0 <= m < t.len() ==> (#[trigger] t[m]).0 != k,
    ensures
        pairs_map(s + t).contains_key(k) == pairs_map(s).contains_key(k),
        pairs_map(s).contains_key(k) ==> pairs_map(s + t)[k] == pairs_map(s)[k],
    decreases t.len(),
{
    if t.len() == 0 {
        assert(s + t =~= s);
    } else {
        assert((s + t).drop_last() =~= s + t.drop_last());
        assert((s + t).last() == t.last());
        assert(t.last().0 != k);
        lemma_pairs_map_after(s, t.drop_last(), k);
    }
}

/// The line that `first_assign` finds lies among the lines.
proof fn lemma_first_assign_bounds(ls: Seq<Seq<char>>, key: Seq<char>, i: int)
    ensures
        first_assign(ls, key, i) matches Some(j) ==> i <= j < ls.len(),
    decreases ls.len() - i,
{
    if 0 <= i < ls.len() && !assigns_key(ls[i], key) {
        lemma_first_assign_bounds(ls, key, i + 1);
    }
}

/// A variable read right after it was written gives the value written,
/// trimmed and without a pair of surrounding quotes. This holds for a new
/// file; for a readable file without the variable, where the line goes at
/// the end; and for one where no line after the first that assigns it (a
/// commented one too, which is the line replaced) is read as another
/// assignment of it. A value that trims to a lone quote makes the file
/// unreadable.
pub proof fn law_env_read_back(content: Option<Seq<char>>, key: Seq<char>, value: Seq<char>)
    requires
        valid_env_key(key),
        single_line(value),
        !env_lone_quote(trim(value)),
        content matches Some(c) ==> env_vars(c) is Some,
        content matches Some(c) ==> (first_assign(lines(c), key, 0) matches Some(i) ==> forall|j: int|
            i < j < lines(c).len() ==> !#[trigger] reads_as(lines(c)[j], key)),
    ensures
        env_vars(env_set(content, key, value)) matches Some(m) && m.contains_key(key) && m[key] == env_unquote(
            trim(value),
        ),
{
    let nl = seq!['\n'];
    let line = key + seq!['='] + value;
    let u = env_unquote(trim(value));
    lemma_written_line(key, value);
    text::lemma_find_sub(value, nl);
    assert forall|j: int| 0 <= j < line.len() implies #[trigger] line[j] != '\n' by {
        if j < key.len() {
            assert(is_ascii_alnum(key[j]) || key[j] == '_');
        } else if j > key.len() {
            let x = j - key.len() - 1;
            assert(line[j] == value[x]);
            if value[x] == '\n' {
                assert(value.subrange(x, x + 1) =~= nl);
                assert(matches_at(value, nl, x));
            }
        }
    }
    assert(env_pairs(seq![line]) == Some(seq![(key, u)])) by {
        assert(seq![line].drop_last() =~= Seq::<Seq<char>>::empty());
        assert(env_pairs(Seq::<Seq<char>>::empty()) == Some(Seq::<(Seq<char>, Seq<char>)>::empty()));
        assert(seq![line].last() == line);
        assert(Seq::<(Seq<char>, Seq<char>)>::empty().push((key, u)) =~= seq![(key, u)]);
    }
    assert(pairs_map(seq![(key, u)]) == Map::<Seq<char>, Seq<char>>::empty().insert(key, u)) by {
        assert(seq![(key, u)].drop_last() =~= Seq::<(Seq<char>, Seq<char>)>::empty());
        assert(pairs_map(Seq::<(Seq<char>, Seq<char>)>::empty()) == Map::<Seq<char>, Seq<char>>::empty());
        assert(seq![(key, u)].last() == (key, u));
    }
    match content {
        None => {
            let empty = Seq::<char>::empty();
            let ls2 = seq![line, empty];
            assert(ls2.drop_last() =~= seq![line]);
            assert(join(seq![line], nl) == line);
            assert(env_set(content, key, value) =~= join(ls2, nl));
            assert forall|k: int, j: int| 0 <= k < ls2.len() && 0 <= j < ls2[k].len() implies #[trigger] ls2[k][j]
                != '\n' by {
                assert(k == 0);
                assert(ls2[0] == line);
            }
            lemma_env_pairs_rejoined(ls2);
            assert(trim(empty) =~= empty);
            text::lemma_find_sub_none(trim(empty), seq!['=']);
            assert(env_line_spec(empty) is None);
        },
        Some(c) => {
            let ls = lines(c);
            lemma_lines_no_newline(c);
            match first_assign(ls, key, 0) {
                Some(i) => {
                    lemma_first_assign_bounds(ls, key, 0);
                    let ls2 = ls.update(i, line);
                    assert forall|k: int, j: int| 0 <= k < ls2.len() && 0 <= j < ls2[k].len() implies #[trigger] ls2[k][j]
                        != '\n' by {
                        if k != i {
                            assert(ls2[k] == ls[k]);
                        }
                    }
                    lemma_env_pairs_rejoined(ls2);
                    let a = ls.take(i);
                    let b = ls.skip(i + 1);
                    assert(ls2 =~= a.push(line) + b);
                    assert(ls =~= ls.take(i + 1) + b);
                    lemma_env_pairs_concat(ls.take(i + 1), b);
                    lemma_env_pairs_take(ls, i);
                    let pa = env_pairs(a)->0;
                    let pb = env_pairs(b)->0;
                    assert(a.push(line).drop_last() =~= a);
                    assert(env_pairs(a.push(line)) == Some(pa.push((key, u))));
                    lemma_env_pairs_concat(a.push(line), b);
                    assert forall|m: int| 0 <= m < pb.len() implies (#[trigger] pb[m]).0 != key by {
                        let j = lemma_env_pair_source(b, m);
                        assert(b[j] == ls[i + 1 + j]);
                        if pb[m].0 == key {
                            assert(reads_as(ls[i + 1 + j], key));
                        }
                    }
                    lemma_pairs_map_after(pa.push((key, u)), pb, key);
                },
                None => {
                    let ls2 = ls.push(line);
                    assert forall|k: int, j: int| 0 <= k < ls2.len() && 0 <= j < ls2[k].len() implies #[trigger] ls2[k][j]
                        != '\n' by {
                        if k < ls.len() {
                            assert(ls2[k] == ls[k]);
                        }
                    }
                    lemma_env_pairs_rejoined(ls2);
                    assert(ls2.drop_last() =~= ls);
                },
            }
        },
    }
}

// ───────────────────────── API server key ─────────────────────────

/// The first candidate that is present and not blank, else empty.
pub open spec fn first_usable(cands: Seq<Option<Seq<char>>>) -> Seq<char>
    decreases cands.len(),
{
    if cands.len() == 0 {
        seq![]
    } else {
        match cands[0] {
            Some(v) => if trim(v).len() > 0 {
                v
            } else {
                first_usable(cands.drop_first())
            },
            None => first_usable(cands.drop_first()),
        }
    }
}

/// The API server key from its sources in order of precedence (profile
/// `config.yaml`, default `config.yaml`, profile `.env`, default `.env`):
/// the first that is set and not blank.
pub fn pick_api_server_key(candidates: &Vec<Option<String>>) -> (r: String)
    ensures
        r@ == first_usable(candidates@.map_values(|o: Option<String>| opt_string_view(o))),
{
    let ghost cs = candidates@.map_values(|o: Option<String>| opt_string_view(o));
    let mut i: usize = 0;
    assert(cs.skip(0) =~= cs);
    while i < candidates.len()
        invariant
            i <= candidates.len(),
            cs == candidates@.map_values(|o: Option<String>| opt_string_view(o)),
            first_usable(cs) == first_usable(cs.skip(i as int)),
        decreases candidates.len() - i,
    {
        assert(cs.skip(i as int).drop_first() =~= cs.skip(i + 1));
        match &candidates[i] {
            Some(v) => {
                let t = text::trim_str(v.as_str());
                if t.as_str().unicode_len() > 0 {
                    return v.clone();
                }
            },
            None => {},
        }
        i += 1;
    }
    String::new()
}


// ───────────────────────── auth.json ─────────────────────────

pub open spec fn empty_object() -> Json {
    Json::Object(seq![])
}

/// The credential store as read from the text of `auth.json` (`None` when
/// the file does not exist): the JSON value of the text, with an empty
/// object for a missing file or text that is not JSON.
pub open spec fn auth_store(content: Option<Seq<char>>) -> Json {
    match content {
        None => empty_object(),
        Some(t) => match json_parse(t) {
            Some(v) => v,
            None => empty_object(),
        },
    }
}

fn empty_object_exec() -> (r: JsonValue)
    ensures
        r@ == empty_object(),
{
    let m: Vec<(String, JsonValue)> = Vec::new();
    assert(entries_view(m@) =~= seq![]);
    JsonValue::Object(m)
}

/// Reads the credential store from the text of `auth.json`.
pub fn read_auth_store(content: Option<&str>) -> (r: JsonValue)
    ensures
        r@ == auth_store(crate::paths::opt_view(content)),
{
    match content {
        None => empty_object_exec(),
        Some(t) => match parse_json(t) {
            Some(v) => v,
            None => empty_object_exec(),
        },
    }
}

/// `store["credential_pool"]`, an empty object when missing.
pub fn get_credential_pool(store: &JsonValue) -> (r: JsonValue)
    ensures
        r@ == match store@.get("credential_pool"@) {
            Some(p) => p,
            None => empty_object(),
        },
{
    match store.get("credential_pool") {
        Some(p) => json_copy(p),
        None => empty_object_exec(),
    }
}

/// A credential entry as serde writes it: `{"key": .., "label": ..}`.
pub open spec fn opt_json(o: Option<String>) -> Json {
    match o {
        Some(s) => Json::Str(s@),
        None => Json::Null,
    }
}

pub open spec fn entry_json(e: CredentialEntry) -> Json {
    Json::Object(seq![("key"@, opt_json(e.key)), ("label"@, opt_json(e.label))])
}

/// `store["credential_pool"][provider] = entries` as `serde_json` indexing
/// does it: a missing pool or a `null` becomes an object.
pub open spec fn pool_set(store: Json, provider: Seq<char>, entries: Json) -> Json {
    let m = match store {
        Json::Object(m) => m,
        _ => seq![],
    };
    let cp = match obj_get(m, "credential_pool"@) {
        Some(x) => x,
        None => empty_object(),
    };
    let cpm = match cp {
        Json::Object(cm) => cm,
        _ => seq![],
    };
    Json::Object(obj_insert(m, "credential_pool"@, Json::Object(obj_insert(cpm, provider, entries))))
}

/// Indexing writes panic on anything but an object or `null`.
pub open spec fn indexable(v: Json) -> bool {
    v is Null || v is Object
}

pub open spec fn pool_indexable(store: Json) -> bool {
    &&& indexable(store)
    &&& store.get("credential_pool"@) matches Some(cp) ==> indexable(cp)
}

fn opt_json_exec(o: &Option<String>) -> (r: JsonValue)
    ensures
        r@ == opt_json(*o),
{
    match o {
        Some(s) => {
            let t = chars_of(s.as_str());
            JsonValue::Str(string_of(t.as_slice()))
        },
        None => JsonValue::Null,
    }
}

/// The store with a provider's credential pool replaced by `entries`.
pub fn set_credential_pool(store: JsonValue, provider: &str, entries: &Vec<CredentialEntry>) -> (r:
    JsonValue)
    requires
        pool_indexable(store@),
    ensures
        r@ == pool_set(store@, provider@, Json::Array(entries@.map_values(|e: CredentialEntry| entry_json(e)))),
{
    let mut items: Vec<JsonValue> = Vec::new();
    let mut i: usize = 0;
    while i < entries.len()
        invariant
            i <= entries.len(),
            items@.len() == i,
            forall|k: int| 0 <= k < i ==> #[trigger] items@[k]@ == entry_json(entries@[k]),
        decreases entries.len() - i,
    {
        let mut fields: Vec<(String, JsonValue)> = Vec::new();
        fields.push((String::from_str("key"), opt_json_exec(&entries[i].key)));
        fields.push((String::from_str("label"), opt_json_exec(&entries[i].label)));
        assert(entries_view(fields@) =~= seq![("key"@, opt_json(entries@[i as int].key)), ("label"@, opt_json(entries@[i as int].label))]);
        items.push(JsonValue::Object(fields));
        i += 1;
    }
    let ghost ej = Json::Array(entries@.map_values(|e: CredentialEntry| entry_json(e)));
    assert forall|k: int| 0 <= k < items@.len() implies items_view(items@)[k] == entries@.map_values(
        |e: CredentialEntry| entry_json(e),
    )[k] by {
        assert(items@[k]@ == entry_json(entries@[k]));
    }
    assert(items_view(items@) =~= entries@.map_values(|e: CredentialEntry| entry_json(e)));
    let arr = JsonValue::Array(items);
    let m: Vec<(String, JsonValue)> = match store {
        JsonValue::Object(m) => m,
        _ => {
            let e: Vec<(String, JsonValue)> = Vec::new();
            assert(entries_view(e@) =~= seq![]);
            e
        },
    };
    let cpm: Vec<(String, JsonValue)> = match find_key(&m, &chars_of("credential_pool")) {
        Some(j) => match &m[j].1 {
            JsonValue::Object(cm) => {
                let c = json_copy(&m[j].1);
                match c {
                    JsonValue::Object(cm2) => cm2,
                    _ => Vec::new(),
                }
            },
            _ => {
                let e: Vec<(String, JsonValue)> = Vec::new();
                assert(entries_view(e@) =~= seq![]);
                e
            },
        },
        None => {
            let e: Vec<(String, JsonValue)> = Vec::new();
            assert(entries_view(e@) =~= seq![]);
            e
        },
    };
    let new_cp = JsonValue::Object(obj_insert_exec(cpm, provider, arr));
    JsonValue::Object(obj_insert_exec(m, "credential_pool", new_cp))
}

/// A saved credential pool reads back: after a provider's pool is set, the
/// store's pool holds those entries for that provider, and the pools of the
/// other providers and the other members of the store are kept.
pub proof fn law_pool_read_back(
    store: Json,
    provider: Seq<char>,
    entries: Json,
    other: Seq<char>,
    member: Seq<char>,
)
    requires
        pool_indexable(store),
    ensures
        pool_set(store, provider, entries).get("credential_pool"@) matches Some(cp) && cp.get(provider) == Some(
            entries,
        ),
        other != provider ==> pool_set(store, provider, entries).get("credential_pool"@)->0.get(other) == (
        match store.get("credential_pool"@) {
            Some(cp) => cp.get(other),
            None => None,
        }),
        member != "credential_pool"@ ==> pool_set(store, provider, entries).get(member) == store.get(member),
{
    let m = match store {
        Json::Object(m) => m,
        _ => seq![],
    };
    let cp = match obj_get(m, "credential_pool"@) {
        Some(x) => x,
        None => empty_object(),
    };
    let cpm = match cp {
        Json::Object(cm) => cm,
        _ => seq![],
    };
    let inner = Json::Object(obj_insert(cpm, provider, entries));
    lemma_obj_insert_get(m, "credential_pool"@, inner, "credential_pool"@);
    lemma_obj_insert_get(m, "credential_pool"@, inner, member);
    lemma_obj_insert_get(cpm, provider, entries, provider);
    lemma_obj_insert_get(cpm, provider, entries, other);
    assert(obj_get(Seq::<(Seq<char>, Json)>::empty(), other) is None) by {
        crate::json::lemma_key_index_none(Seq::<(Seq<char>, Json)>::empty(), other);
    }
    assert(obj_get(Seq::<(Seq<char>, Json)>::empty(), member) is None) by {
        crate::json::lemma_key_index_none(Seq::<(Seq<char>, Json)>::empty(), member);
    }
}

/// A member holding a non-blank string.
pub open spec fn nonblank_member(e: Json, k: Seq<char>) -> bool {
    e.get(k) matches Some(Json::Str(s)) && trim(s).len() > 0
}

/// An access token, refresh token or API key that is not blank.
pub open spec fn has_token(e: Json) -> bool {
    nonblank_member(e, "access_token"@) || nonblank_member(e, "refresh_token"@) || nonblank_member(
        e,
        "api_key"@,
    )
}

/// A store holds a credential for `p`: under `providers.p`, or in an entry
/// of `credential_pool.p`.
pub open spec fn store_has(store: Json, p: Seq<char>) -> bool {
    ||| (store.get("providers"@) matches Some(Json::Object(m)) && obj_get(m, p) matches Some(e)
        && has_token(e))
    ||| (store.get("credential_pool"@) matches Some(Json::Object(m)) && obj_get(m, p) matches Some(
        Json::Array(es),
    ) && exists|i: int| 0 <= i < es.len() && has_token(#[trigger] es[i]))
}

/// Credentials for a provider (its name trimmed, never for a blank name) in
/// any of the stores.
pub open spec fn has_oauth(provider: Seq<char>, stores: Seq<Json>) -> bool {
    trim(provider).len() > 0 && exists|i: int| 0 <= i < stores.len() && store_has(#[trigger] stores[i], trim(provider))
}

fn nonblank_member_exec(e: &JsonValue, k: &str) -> (b: bool)
    ensures
        b == nonblank_member(e@, k@),
{
    match e.get(k) {
        Some(JsonValue::Str(s)) => {
            let t = text::trim_str(s.as_str());
            t.as_str().unicode_len() > 0
        },
        _ => false,
    }
}

fn has_token_exec(e: &JsonValue) -> (b: bool)
    ensures
        b == has_token(e@),
{
    nonblank_member_exec(e, "access_token") || nonblank_member_exec(e, "refresh_token")
        || nonblank_member_exec(e, "api_key")
}

fn any_token(es: &Vec<JsonValue>) -> (b: bool)
    ensures
        b == exists|i: int| 0 <= i < items_view(es@).len() && has_token(#[trigger] items_view(es@)[i]),
{
    let mut i: usize = 0;
    while i < es.len()
        invariant
            i <= es.len(),
            forall|k: int| 0 <= k < i ==> !has_token(#[trigger] es@[k]@),
        decreases es.len() - i,
    {
        if has_token_exec(&es[i]) {
            assert(items_view(es@)[i as int] == es@[i as int]@);
            return true;
        }
        i += 1;
    }
    assert forall|k: int| 0 <= k < items_view(es@).len() implies !has_token(
        #[trigger] items_view(es@)[k],
    ) by {
        assert(items_view(es@)[k] == es@[k]@);
    }
    false
}

fn providers_has(store: &JsonValue, p: &str) -> (b: bool)
    ensures
        b == (store@.get("providers"@) matches Some(Json::Object(m)) && obj_get(m, p@) matches Some(e)
            && has_token(e)),
{
    match store.get("providers") {
        Some(JsonValue::Object(m)) => {
            let pv = chars_of(p);
            match find_key(m, &pv) {
                Some(j) => {
                    assert(entries_view(m@)[j as int].1 == m@[j as int].1@);
                    has_token_exec(&m[j].1)
                },
                None => false,
            }
        },
        _ => false,
    }
}

fn pool_has(store: &JsonValue, p: &str) -> (b: bool)
    ensures
        b == (store@.get("credential_pool"@) matches Some(Json::Object(m)) && obj_get(m, p@) matches Some(
            Json::Array(es),
        ) && exists|i: int| 0 <= i < es.len() && has_token(#[trigger] es[i])),
{
    match store.get("credential_pool") {
        Some(JsonValue::Object(m)) => {
            let pv = chars_of(p);
            match find_key(m, &pv) {
                Some(j) => match &m[j].1 {
                    JsonValue::Array(es) => {
                        assert(entries_view(m@)[j as int].1 == m@[j as int].1@);
                        any_token(es)
                    },
                    _ => {
                        assert(entries_view(m@)[j as int].1 == m@[j as int].1@);
                        false
                    },
                },
                None => false,
            }
        },
        _ => false,
    }
}

fn store_has_exec(store: &JsonValue, p: &str) -> (b: bool)
    ensures
        b == store_has(store@, p@),
{
    providers_has(store, p) || pool_has(store, p)
}

/// Whether the credential stores hold a token or key for the provider.
pub fn has_oauth_credentials(provider: &str, stores: &Vec<JsonValue>) -> (b: bool)
    ensures
        b == has_oauth(provider@, stores@.map_values(|s: JsonValue| s@)),
{
    let clean = text::trim_str(provider);
    if clean.as_str().unicode_len() == 0 {
        return false;
    }
    let ghost sv = stores@.map_values(|s: JsonValue| s@);
    let mut i: usize = 0;
    while i < stores.len()
        invariant
            i <= stores.len(),
            clean@ == trim(provider@),
            clean@.len() > 0,
            sv == stores@.map_values(|s: JsonValue| s@),
            forall|k: int| 0 <= k < i ==> !store_has(#[trigger] sv[k], clean@),
        decreases stores.len() - i,
    {
        assert(sv[i as int] == stores@[i as int]@);
        if store_has_exec(&stores[i], clean.as_str()) {
            assert(store_has(sv[i as int], clean@));
            return true;
        }
        i += 1;
    }
    false
}

/// Whether the default profile's store is searched too: for a named profile
/// other than `default`.
pub fn searches_default_store(profile: Option<&str>) -> (b: bool)
    ensures
        b == (profile matches Some(p) && p@ != "default"@),
{
    match profile {
        Some(p) => !text::str_eq(p, "default"),
        None => false,
    }
}


// ───────────────────────── desktop.json ─────────────────────────

/// `data["connectionMode"]`, `data["remoteUrl"]` and `data["remoteApiKey"]`
/// set as `serde_json` indexing sets them (a `null` becomes an object).
pub open spec fn connection_set(data: Json, mode: Seq<char>, url: Seq<char>, key: Seq<char>) -> Json {
    let m = match data {
        Json::Object(m) => m,
        _ => seq![],
    };
    Json::Object(
        obj_insert(
            obj_insert(obj_insert(m, "connectionMode"@, Json::Str(mode)), "remoteUrl"@, Json::Str(url)),
            "remoteApiKey"@,
            Json::Str(key),
        ),
    )
}

fn str_json(s: &str) -> (r: JsonValue)
    ensures
        r@ == Json::Str(s@),
{
    let t = chars_of(s);
    JsonValue::Str(string_of(t.as_slice()))
}

/// The desktop settings with a new connection mode, remote URL and API key
/// (empty when not given).
pub fn set_connection_config(data: JsonValue, mode: &str, remote_url: &str, api_key: Option<&str>) -> (r:
    JsonValue)
    requires
        indexable(data@),
    ensures
        r@ == connection_set(
            data@,
            mode@,
            remote_url@,
            match api_key {
                Some(k) => k@,
                None => seq![],
            },
        ),
{
    let m: Vec<(String, JsonValue)> = match data {
        JsonValue::Object(m) => m,
        _ => {
            let e: Vec<(String, JsonValue)> = Vec::new();
            assert(entries_view(e@) =~= seq![]);
            e
        },
    };
    let key = match api_key {
        Some(k) => str_json(k),
        None => {
            let r = JsonValue::Str(String::new());
            proof {
                reveal_strlit("");
                assert(""@ =~= Seq::<char>::empty());
            }
            r
        },
    };
    let m1 = obj_insert_exec(m, "connectionMode", str_json(mode));
    let m2 = obj_insert_exec(m1, "remoteUrl", str_json(remote_url));
    JsonValue::Object(obj_insert_exec(m2, "remoteApiKey", key))
}

// ───────────────────────── five-second cache ─────────────────────────

/// One cached value with the time, in milliseconds, at which it was stored.
pub struct CacheEntry {
    pub key: String,
    pub stamp_ms: u64,
    pub value: JsonValue,
}

/// The settings cache: values keyed by text, each valid for five seconds.
pub struct TtlCache {
    pub entries: Vec<CacheEntry>,
}

/// How long a cached value stays valid, in milliseconds.
pub const CACHE_TTL_MS: u64 = 5000;

pub open spec fn cache_map(s: Seq<CacheEntry>) -> Map<Seq<char>, (u64, Json)>
    decreases s.len(),
{
    if s.len() == 0 {
        Map::empty()
    } else {
        cache_map(s.drop_last()).insert(s.last().key@, (s.last().stamp_ms, s.last().value@))
    }
}

impl View for TtlCache {
    type V = Map<Seq<char>, (u64, Json)>;

    open spec fn view(&self) -> Map<Seq<char>, (u64, Json)> {
        cache_map(self.entries@)
    }
}

/// The entries whose key does not start with `prefix`, in order.
pub open spec fn keep_not_prefixed(s: Seq<CacheEntry>, prefix: Seq<char>) -> Seq<CacheEntry>
    decreases s.len(),
{
    if s.len() == 0 {
        seq![]
    } else if starts_with(s.last().key@, prefix) {
        keep_not_prefixed(s.drop_last(), prefix)
    } else {
        keep_not_prefixed(s.drop_last(), prefix).push(s.last())
    }
}

/// The cache without the keys that start with `prefix`.
pub open spec fn without_prefix(m: Map<Seq<char>, (u64, Json)>, prefix: Seq<char>) -> Map<Seq<char>, (u64, Json)> {
    m.restrict(m.dom().filter(|k: Seq<char>| !starts_with(k, prefix)))
}

pub proof fn lemma_keep_not_prefixed(s: Seq<CacheEntry>, prefix: Seq<char>)
    ensures
        cache_map(keep_not_prefixed(s, prefix)) == without_prefix(cache_map(s), prefix),
    decreases s.len(),
{
    if s.len() > 0 {
        let t = s.drop_last();
        let e = s.last();
        lemma_keep_not_prefixed(t, prefix);
        let kt = keep_not_prefixed(t, prefix);
        if !starts_with(e.key@, prefix) {
            assert(kt.push(e).drop_last() =~= kt);
        }
        assert(cache_map(keep_not_prefixed(s, prefix)) =~= without_prefix(cache_map(s), prefix));
    } else {
        assert(cache_map(keep_not_prefixed(s, prefix)) =~= without_prefix(cache_map(s), prefix));
    }
}

/// A value is stale once more than [`CACHE_TTL_MS`] have passed.
pub open spec fn stale(stamp: u64, now_ms: u64) -> bool {
    now_ms > stamp && now_ms - stamp > 5000
}

impl TtlCache {
    pub fn new() -> (r: TtlCache)
        ensures
            r@ == Map::<Seq<char>, (u64, Json)>::empty(),
    {
        TtlCache { entries: Vec::new() }
    }

    /// Stores a value under `key` at time `now_ms`.
    pub fn cache_set(&mut self, key: &str, value: JsonValue, now_ms: u64)
        ensures
            final(self)@ == old(self)@.insert(key@, (now_ms, value@)),
    {
        let ghost e = self.entries@;
        let k = chars_of(key);
        self.entries.push(CacheEntry { key: string_of(k.as_slice()), stamp_ms: now_ms, value });
        assert(self.entries@.drop_last() =~= e);
    }

    /// Drops every key that starts with `prefix`.
    pub fn cache_invalidate(&mut self, prefix: &str)
        ensures
            final(self)@ == without_prefix(old(self)@, prefix@),
    {
        let p = chars_of(prefix);
        let mut kept: Vec<CacheEntry> = Vec::new();
        let mut rest: Vec<CacheEntry> = Vec::new();
        std::mem::swap(&mut rest, &mut self.entries);
        let ghost s0 = rest@;
        let ghost mut i: int = 0;
        assert(s0.skip(0) =~= s0);
        while rest.len() > 0
            invariant
                p@ == prefix@,
                0 <= i <= s0.len(),
                rest@ == s0.skip(i),
                kept@ == keep_not_prefixed(s0.take(i), prefix@),
            decreases rest.len(),
        {
            let x = rest.remove(0);
            proof {
                assert(s0.take(i + 1).drop_last() =~= s0.take(i));
                assert(s0.take(i + 1).last() == x);
            }
            let k = chars_of(x.key.as_str());
            if !text::starts_with_exec(&k, &p) {
                kept.push(x);
            }
            proof {
                i = i + 1;
                assert(rest@ =~= s0.skip(i));
            }
        }
        proof {
            assert(s0.take(i) =~= s0);
            lemma_keep_not_prefixed(s0, prefix@);
        }
        self.entries = kept;
    }

    /// The value under `key` if it is fresh at `now_ms`; a stale one is
    /// dropped together with every key that starts with `key`.
    pub fn cache_get(&mut self, key: &str, now_ms: u64) -> (r: Option<JsonValue>)
        ensures
            match old(self)@.get(key@) {
                None => r is None && final(self)@ == old(self)@,
                Some(e) => if stale(e.0, now_ms) {
                    r is None && final(self)@ == without_prefix(old(self)@, key@)
                } else {
                    r matches Some(v) && v@ == e.1 && final(self)@ == old(self)@
                },
            },
    {
        let k = chars_of(key);
        let mut i = self.entries.len();
        assert(self.entries@.take(i as int) =~= self.entries@);
        while i > 0
            invariant
                i <= self.entries@.len(),
                k@ == key@,
                self.entries@ == old(self).entries@,
                forall|j: int|
                    i <= j < self.entries@.len() ==> #[trigger] self.entries@[j].key@ != key@,
                cache_map(self.entries@).get(key@) == cache_map(self.entries@.take(i as int)).get(key@),
            decreases i,
        {
            let ghost t = self.entries@.take(i as int);
            assert(t.drop_last() =~= self.entries@.take(i - 1));
            let ek = chars_of(self.entries[i - 1].key.as_str());
            assert(t.last() == self.entries@[i - 1]);
            if text::eq_chars(&ek, &k) {
                assert(cache_map(t).get(key@) == Some(
                    (self.entries@[i - 1].stamp_ms, self.entries@[i - 1].value@),
                ));
                let stamp = self.entries[i - 1].stamp_ms;
                if now_ms > stamp && now_ms - stamp > CACHE_TTL_MS {
                    self.cache_invalidate(key);
                    return None;
                }
                return Some(json_copy(&self.entries[i - 1].value));
            }
            i -= 1;
        }
        assert(self.entries@.take(0) =~= Seq::<CacheEntry>::empty());
        None
    }
}


/// A value just set is read back while it is fresh.
pub proof fn law_cache_read_back(m: Map<Seq<char>, (u64, Json)>, key: Seq<char>, value: Json, set_ms: u64, now_ms: u64)
    requires
        !stale(set_ms, now_ms),
    ensures
        m.insert(key, (set_ms, value)).get(key) == Some((set_ms, value)),
        !stale(m.insert(key, (set_ms, value))[key].0, now_ms),
{
}

/// After invalidating a prefix no key that starts with it is cached, and
/// every other key keeps its value.
pub proof fn law_cache_invalidate(m: Map<Seq<char>, (u64, Json)>, prefix: Seq<char>, key: Seq<char>)
    ensures
        starts_with(key, prefix) ==> without_prefix(m, prefix).get(key) is None,
        !starts_with(key, prefix) ==> without_prefix(m, prefix).get(key) == m.get(key),
{
}


// ───────────────────────── reading back a written setting ─────────────────────────

/// Leading blanks followed by a non-blank: exactly those blanks.
proof fn lemma_blank_len_of(x: Seq<char>, y: Seq<char>)
    requires
        forall|i: int| 0 <= i < x.len() ==> is_blank(#[trigger] x[i]),
        y.len() > 0 ==> !is_blank(y[0]),
    ensures
        blank_len(x + y) == x.len(),
    decreases x.len(),
{
    if x.len() > 0 {
        assert((x + y).drop_first() =~= x.drop_first() + y);
        assert forall|i: int| 0 <= i < x.drop_first().len() implies is_blank(#[trigger] x.drop_first()[i]) by {
            assert(x.drop_first()[i] == x[i + 1]);
        }
        lemma_blank_len_of(x.drop_first(), y);
    } else {
        assert(x + y =~= y);
    }
}

/// Trailing blanks after a non-blank end: removed, and nothing more.
proof fn lemma_blank_trim_end_of(x: Seq<char>, b: Seq<char>)
    requires
        forall|i: int| 0 <= i < b.len() ==> is_blank(#[trigger] b[i]),
        x.len() > 0,
        !is_blank(x.last()),
    ensures
        blank_trim_end(x + b) == x,
    decreases b.len(),
{
    if b.len() > 0 {
        assert((x + b).drop_last() =~= x + b.drop_last());
        assert((x + b).last() == b.last());
        assert forall|i: int| 0 <= i < b.drop_last().len() implies is_blank(#[trigger] b.drop_last()[i]) by {
            assert(b.drop_last()[i] == b[i]);
        }
        lemma_blank_trim_end_of(x, b.drop_last());
    } else {
        assert(x + b =~= x);
    }
}

/// `blank_trim_end(s)` is a prefix of `s`, and what follows it is blanks.
proof fn lemma_blank_trim_end_props(s: Seq<char>)
    ensures
        blank_trim_end(s).len() <= s.len(),
        s.take(blank_trim_end(s).len() as int) == blank_trim_end(s),
        forall|i: int| blank_trim_end(s).len() <= i < s.len() ==> is_blank(#[trigger] s[i]),
        blank_trim_end(s).len() > 0 ==> !is_blank(blank_trim_end(s).last()),
    decreases s.len(),
{
    if s.len() > 0 && is_blank(s.last()) {
        lemma_blank_trim_end_props(s.drop_last());
        let t = blank_trim_end(s.drop_last());
        assert(s.take(t.len() as int) =~= s.drop_last().take(t.len() as int));
        assert forall|i: int| t.len() <= i < s.len() implies is_blank(#[trigger] s[i]) by {
            if i < s.len() - 1 {
                assert(s[i] == s.drop_last()[i]);
            }
        }
    } else {
        assert(s.take(s.len() as int) =~= s);
    }
}

proof fn lemma_line_end_props(c: Seq<char>, x: int)
    requires
        0 <= x <= c.len(),
    ensures
        x <= line_end(c, x) <= c.len(),
        forall|i: int| x <= i < line_end(c, x) ==> #[trigger] c[i] != '\n',
        line_end(c, x) == c.len() || c[line_end(c, x)] == '\n',
    decreases c.len() - x,
{
    if x < c.len() && c[x] != '\n' {
        lemma_line_end_props(c, x + 1);
    }
}

proof fn lemma_line_end_at(c: Seq<char>, x: int, y: int)
    requires
        0 <= x <= y <= c.len(),
        forall|i: int| x <= i < y ==> #[trigger] c[i] != '\n',
        y == c.len() || c[y] == '\n',
    ensures
        line_end(c, x) == y,
    decreases y - x,
{
    if x < y {
        lemma_line_end_at(c, x + 1, y);
    }
}

proof fn lemma_hash_pos_props(s: Seq<char>)
    ensures
        0 <= hash_pos(s) <= s.len(),
        forall|i: int| 0 <= i < hash_pos(s) ==> #[trigger] s[i] != '#',
        hash_pos(s) < s.len() ==> s[hash_pos(s)] == '#',
{
    text::lemma_find_sub(s, seq!['#']);
    match find_sub(s, seq!['#']) {
        Some(i) => {
            assert(s.subrange(i, i + 1)[0] == s[i]);
            assert forall|j: int| 0 <= j < i implies #[trigger] s[j] != '#' by {
                if s[j] == '#' {
                    assert(s.subrange(j, j + 1) =~= seq!['#']);
                    assert(matches_at(s, seq!['#'], j));
                }
            }
        },
        None => {
            assert forall|j: int| 0 <= j < s.len() implies #[trigger] s[j] != '#' by {
                if s[j] == '#' {
                    assert(s.subrange(j, j + 1) =~= seq!['#']);
                    assert(matches_at(s, seq!['#'], j));
                }
            }
        },
    }
}

proof fn lemma_hash_pos_at(s: Seq<char>, h: int)
    requires
        0 <= h <= s.len(),
        forall|i: int| 0 <= i < h ==> #[trigger] s[i] != '#',
        h < s.len() ==> s[h] == '#',
    ensures
        hash_pos(s) == h,
{
    lemma_hash_pos_props(s);
    let q = hash_pos(s);
    if q < h {
        assert(s[q] == '#');
    } else if h < q {
        assert(s[h] != '#');
    }
}

/// A text that starts and ends with a character that is not white space
/// is its own trim.
proof fn lemma_trim_fixed(s: Seq<char>)
    requires
        s.len() > 0,
        !text::is_ws(s[0]),
        !text::is_ws(s.last()),
    ensures
        trim(s) == s,
{
    assert(text::trim_start(s) == s);
    assert(text::trim_end(s) == s);
}


proof fn lemma_flm_props(c: Seq<char>, k: Seq<char>, q: int)
    requires
        0 <= q,
    ensures
        first_line_match(c, k, q) matches Some(p) ==> forall|j: int|
            q <= j < p ==> !(#[trigger] at_line_start(c, j) && matches_at(c, k, j)),
        first_line_match(c, k, q) is None ==> forall|j: int|
            q <= j <= c.len() ==> !(#[trigger] at_line_start(c, j) && matches_at(c, k, j)),
    decreases c.len() + 1 - q,
{
    if q <= c.len() && !(at_line_start(c, q) && matches_at(c, k, q)) {
        lemma_flm_props(c, k, q + 1);
    }
}

proof fn lemma_flm_first(c: Seq<char>, k: Seq<char>, q: int, p: int)
    requires
        0 <= q <= p <= c.len(),
        forall|j: int| q <= j < p ==> !(#[trigger] at_line_start(c, j) && matches_at(c, k, j)),
        at_line_start(c, p),
        matches_at(c, k, p),
    ensures
        first_line_match(c, k, q) == Some(p),
    decreases p - q,
{
    if q < p {
        assert(!(at_line_start(c, q) && matches_at(c, k, q)));
        lemma_flm_first(c, k, q + 1, p);
    }
}

/// A key without dots is a single path segment.
proof fn lemma_single_segment(key: Seq<char>)
    requires
        key.len() > 0,
        forall|i: int| 0 <= i < key.len() ==> #[trigger] key[i] != '.',
    ensures
        path_segments(key) == seq![key],
{
    assert forall|j: int| 0 <= j && j + 1 <= key.len() implies !matches_at(key, seq!['.'], j) by {
        if matches_at(key, seq!['.'], j) {
            assert(key.subrange(j, j + 1)[0] == key[j]);
        }
    }
    text::lemma_find_sub_none(key, seq!['.']);
    assert(text::split(key, seq!['.']) == seq![key]);
    let ps = seq![key];
    assert(ps.drop_last() =~= Seq::<Seq<char>>::empty());
    assert(crate::yaml::nonempty(ps.drop_last()) == Seq::<Seq<char>>::empty());
    assert(crate::yaml::nonempty(ps) =~= seq![key]);
}


/// `"value"` as written into `config.yaml`.
pub open spec fn quoted(value: Seq<char>) -> Seq<char> {
    seq!['"'] + value + seq!['"']
}

pub open spec fn plain_value(value: Seq<char>) -> bool {
    forall|i: int| 0 <= i < value.len() ==> #[trigger] value[i] != '\n' && value[i] != '#'
}

/// The value read from a line's remainder made of blanks, a value without
/// `#` that starts and ends with a quote, blanks, and a comment.
proof fn lemma_line_value_of(g: Seq<char>, q: Seq<char>, b: Seq<char>, t: Seq<char>)
    requires
        forall|i: int| 0 <= i < g.len() ==> is_blank(#[trigger] g[i]),
        forall|i: int| 0 <= i < b.len() ==> is_blank(#[trigger] b[i]),
        forall|i: int| 0 <= i < q.len() ==> #[trigger] q[i] != '#',
        q.len() > 0,
        !is_blank(q[0]),
        !is_blank(q.last()),
        t.len() > 0 ==> t[0] == '#',
    ensures
        line_value(g + q + b + t) == q,
{
    let r = g + q + b + t;
    let hp: int = (g.len() + q.len() + b.len()) as int;
    assert forall|i: int| 0 <= i < hp implies #[trigger] r[i] != '#' by {
        if i < g.len() {
            assert(r[i] == g[i]);
        } else if i < g.len() + q.len() {
            assert(r[i] == q[i - g.len()]);
        } else {
            assert(r[i] == b[i - g.len() - q.len()]);
        }
    }
    if hp < r.len() {
        assert(r[hp] == t[0]);
    }
    lemma_hash_pos_at(r, hp);
    let v = r.take(hp);
    assert(v =~= g + (q + b));
    lemma_blank_len_of(g, q + b);
    assert(v.skip(g.len() as int) =~= q + b);
    lemma_blank_trim_end_of(q, b);
}

/// The key is found again when the text before the end of its match is unchanged.
proof fn lemma_flm_same_prefix(c: Seq<char>, c2: Seq<char>, k: Seq<char>, n: int)
    requires
        first_line_match(c, k, 0) matches Some(p) && p + k.len() <= n,
        n <= c.len(),
        n <= c2.len(),
        forall|i: int| 0 <= i < n ==> #[trigger] c2[i] == c[i],
    ensures
        first_line_match(c2, k, 0) == first_line_match(c, k, 0),
{
    let p = first_line_match(c, k, 0)->0;
    crate::yaml::lemma_first_line_match(c, k, 0);
    lemma_flm_props(c, k, 0);
    assert forall|j: int| 0 <= j < p implies !(#[trigger] at_line_start(c2, j) && matches_at(c2, k, j)) by {
        assert(!(at_line_start(c, j) && matches_at(c, k, j)));
        if j > 0 {
            assert(c2[j - 1] == c[j - 1]);
        }
        if matches_at(c2, k, j) {
            assert(c2.subrange(j, j + k.len()) =~= c.subrange(j, j + k.len()));
        }
    }
    if p > 0 {
        assert(c2[p - 1] == c[p - 1]);
    }
    assert(c2.subrange(p, p + k.len()) =~= c.subrange(p, p + k.len()));
    lemma_flm_first(c2, k, 0, p);
}

/// The parts of what follows a key's colon on a line that ends at `le`:
/// blanks, the value, blanks and a comment.
proof fn lemma_value_parts(c: Seq<char>, key_end: int, le: int) -> (hp: int)
    requires
        0 <= key_end <= le <= c.len(),
        forall|i: int| key_end <= i < le ==> #[trigger] c[i] != '\n',
        le == c.len() || c[le] == '\n',
    ensures
        ({
            let rest = c.subrange(key_end, le);
            let vs = key_end + blank_len(rest.take(hash_pos(rest)));
            let ve = vs + line_value(rest).len();
            &&& key_end <= vs <= ve <= le
            &&& forall|i: int| key_end <= i < vs ==> is_blank(#[trigger] c[i])
            &&& line_value(rest) == c.subrange(vs, ve)
            &&& ve <= hp <= le
            &&& forall|i: int| ve <= i < hp ==> is_blank(#[trigger] c[i])
            &&& (hp < le ==> c[hp] == '#')
        }),
{
    let rest = c.subrange(key_end, le);
    lemma_hash_pos_props(rest);
    let hp = hash_pos(rest);
    let v = rest.take(hp);
    lemma_blank_len_props(v);
    let gap = blank_len(v) as int;
    let w = v.skip(gap);
    lemma_blank_trim_end_props(w);
    let vr = blank_trim_end(w);
    let vs = key_end + gap;
    let ve = vs + vr.len();
    assert forall|i: int| key_end <= i < vs implies is_blank(#[trigger] c[i]) by {
        assert(c[i] == v[i - key_end]);
    }
    assert(w.take(vr.len() as int) == vr);
    assert(vr =~= c.subrange(vs, ve)) by {
        assert forall|i: int| 0 <= i < vr.len() implies vr[i] == c[vs + i] by {
            assert(vr[i] == w[i]);
        }
    }
    let hq = key_end + hp;
    assert forall|i: int| ve <= i < hq implies is_blank(#[trigger] c[i]) by {
        assert(c[i] == w[i - vs]);
    }
    if hq < le {
        assert(c[hq] == rest[hp]);
    }
    assert(ve <= hq <= le);
    hq
}

/// Putting `"value"` in place of that value keeps the rest of the line, and
/// `"value"` is the value read there.
proof fn lemma_value_replaced(c: Seq<char>, key_end: int, le: int, value: Seq<char>)
    requires
        0 <= key_end <= le <= c.len(),
        forall|i: int| key_end <= i < le ==> #[trigger] c[i] != '\n',
        le == c.len() || c[le] == '\n',
        plain_value(value),
    ensures
        ({
            let rest = c.subrange(key_end, le);
            let vs = key_end + blank_len(rest.take(hash_pos(rest)));
            let ve = vs + line_value(rest).len();
            let c2 = c.take(vs) + quoted(value) + c.skip(ve);
            let le2 = le + quoted(value).len() - (ve - vs);
            &&& key_end <= le2 <= c2.len()
            &&& forall|i: int| key_end <= i < le2 ==> #[trigger] c2[i] != '\n'
            &&& (le2 == c2.len() || c2[le2] == '\n')
            &&& line_value(c2.subrange(key_end, le2)) == quoted(value)
        }),
{
    let hq = lemma_value_parts(c, key_end, le);
    let rest = c.subrange(key_end, le);
    let vs = key_end + blank_len(rest.take(hash_pos(rest)));
    let ve = vs + line_value(rest).len();
    let q = quoted(value);
    let c2 = c.take(vs) + q + c.skip(ve);
    let d = q.len() - (ve - vs);
    let le2 = le + d;
    assert forall|i: int| key_end <= i < le2 implies #[trigger] c2[i] != '\n' by {
        if i < vs {
            assert(c2[i] == c[i]);
        } else if i < vs + q.len() {
            assert(c2[i] == q[i - vs]);
            if 0 < i - vs < q.len() - 1 {
                assert(q[i - vs] == value[i - vs - 1]);
            }
        } else {
            assert(c2[i] == c[i - d]);
        }
    }
    if le < c.len() {
        assert(c2[le2] == c[le]);
    }
    let g = c.subrange(key_end, vs);
    let b = c.subrange(ve, hq);
    let t = c.subrange(hq, le);
    let rest2 = c2.subrange(key_end, le2);
    assert(rest2 =~= g + q + b + t) by {
        assert forall|i: int| 0 <= i < rest2.len() implies rest2[i] == (g + q + b + t)[i] by {
            if i < g.len() {
                assert(rest2[i] == c2[key_end + i]);
            } else if i < g.len() + q.len() {
            } else {
                assert(rest2[i] == c[key_end + i - d]);
            }
        }
    }
    assert forall|i: int| 0 <= i < g.len() implies is_blank(#[trigger] g[i]) by {
        assert(g[i] == c[key_end + i]);
    }
    assert forall|i: int| 0 <= i < b.len() implies is_blank(#[trigger] b[i]) by {
        assert(b[i] == c[ve + i]);
    }
    assert forall|i: int| 0 <= i < q.len() implies #[trigger] q[i] != '#' by {
        if 0 < i < q.len() - 1 {
            assert(q[i] == value[i - 1]);
        }
    }
    if t.len() > 0 {
        assert(t[0] == c[hq]);
    }
    lemma_line_value_of(g, q, b, t);
}

/// Replacing the value of a top-level key by `"value"` leaves the key found
/// on the same line, with `"value"` as its raw value.
proof fn lemma_top_level_replaced(c: Seq<char>, key: Seq<char>, value: Seq<char>)
    requires
        top_level_hit(c, key) is Some,
        plain_value(value),
    ensures
        ({
            let h = top_level_hit(c, key)->0;
            let c2 = c.take(h.value_start) + quoted(value) + c.skip(h.value_end);
            top_level_hit(c2, key) matches Some(h2) && h2.raw == quoted(value)
        }),
{
    let k = key + seq![':'];
    let h = top_level_hit(c, key)->0;
    let p = first_line_match(c, k, 0)->0;
    crate::yaml::lemma_first_line_match(c, k, 0);
    let key_end = p + key.len() + 1;
    lemma_line_end_props(c, key_end);
    let le = line_end(c, key_end);
    lemma_value_parts(c, key_end, le);
    lemma_value_replaced(c, key_end, le, value);
    let q = quoted(value);
    let c2 = c.take(h.value_start) + q + c.skip(h.value_end);
    let le2 = le + q.len() - (h.value_end - h.value_start);
    assert forall|i: int| 0 <= i < h.value_start implies #[trigger] c2[i] == c[i] by {}
    lemma_flm_same_prefix(c, c2, k, h.value_start);
    lemma_line_end_at(c2, key_end, le2);
}

/// A line `key: "value"` added after a text without the key is where the
/// key is found, with `"value"` as its raw value.
proof fn lemma_top_level_added(c: Seq<char>, key: Seq<char>, value: Seq<char>)
    requires
        top_level_hit(c, key) is None,
        forall|i: int| 0 <= i < key.len() ==> #[trigger] key[i] != '\n',
        plain_value(value),
    ensures
        ({
            let c2 = c + line_sep(c) + key + ": \""@ + value + "\"\n"@;
            top_level_hit(c2, key) matches Some(h2) && h2.raw == quoted(value)
        }),
{
    reveal_strlit(": \"");
    reveal_strlit("\"\n");
    let k = key + seq![':'];
    let sep = line_sep(c);
    let q = quoted(value);
    let c2 = c + sep + key + ": \""@ + value + "\"\n"@;
    assert(c2 =~= (c + sep) + k + (seq![' '] + q) + seq!['\n']);
    let p2: int = (c.len() + sep.len()) as int;
    assert(p2 == 0 || c2[p2 - 1] == '\n') by {
        if p2 > 0 {
            if sep.len() == 0 {
                assert(c2[p2 - 1] == c[c.len() - 1]);
            } else {
                assert(c2[p2 - 1] == sep[0]);
            }
        }
    }
    assert(c2.subrange(p2, p2 + k.len()) =~= k);
    lemma_flm_props(c, k, 0);
    assert forall|j: int| 0 <= j < p2 implies !(#[trigger] at_line_start(c2, j) && matches_at(c2, k, j)) by {
        if matches_at(c2, k, j) && at_line_start(c2, j) {
            if j + k.len() <= c.len() {
                assert(c2.subrange(j, j + k.len()) =~= c.subrange(j, j + k.len()));
                if j > 0 {
                    assert(c2[j - 1] == c[j - 1]);
                }
                assert(at_line_start(c, j) && matches_at(c, k, j));
            } else {
                // the window holds the line break just before `p2`
                let m = p2 - 1 - j;
                assert(0 <= m < k.len());
                assert(c2.subrange(j, j + k.len())[m] == c2[p2 - 1]);
                if m < key.len() {
                    assert(k[m] == key[m]);
                }
            }
        }
    }
    lemma_flm_first(c2, k, 0, p2);
    let key_end: int = p2 + key.len() + 1;
    let le2: int = c2.len() - 1;
    assert forall|i: int| key_end <= i < le2 implies #[trigger] c2[i] != '\n' by {
        if i > key_end {
            let m = i - key_end - 1;
            assert(c2[i] == q[m]);
            if 0 < m < q.len() - 1 {
                assert(q[m] == value[m - 1]);
            }
        }
    }
    lemma_line_end_at(c2, key_end, le2);
    let rest2 = c2.subrange(key_end, le2);
    assert(rest2 =~= seq![' '] + q + Seq::<char>::empty() + Seq::<char>::empty());
    assert forall|i: int| 0 <= i < q.len() implies #[trigger] q[i] != '#' by {
        if 0 < i < q.len() - 1 {
            assert(q[i] == value[i - 1]);
        }
    }
    lemma_line_value_of(seq![' '], q, Seq::<char>::empty(), Seq::<char>::empty());
}

/// A top-level setting read right after it was written gives the value
/// written (keys without dots or line breaks; values without line breaks or
/// `#`, which would end the value), and the new text can be read.
pub proof fn law_config_read_back(c: Seq<char>, key: Seq<char>, value: Seq<char>)
    requires
        key.len() > 0,
        forall|i: int| 0 <= i < key.len() ==> #[trigger] key[i] != '.' && key[i] != '\n',
        plain_value(value),
    ensures
        config_set(c, key, value) matches Some(c2) && config_readable(c2, key) && hit_value(config_hit(c2, key))
            == Some(value),
{
    lemma_single_segment(key);
    assert(path_segments(key)[0] == key);
    let q = quoted(value);
    let c2 = config_set(c, key, value)->0;
    match top_level_hit(c, key) {
        Some(h) => {
            lemma_top_level_replaced(c, key, value);
            assert(c2 == c.take(h.value_start) + q + c.skip(h.value_end));
        },
        None => {
            lemma_top_level_added(c, key, value);
        },
    }
    assert(config_hit(c2, key) == top_level_hit(c2, key));
    lemma_trim_fixed(q);
    assert(q.subrange(1, q.len() - 1) =~= value);
    assert(unquote(q) == value);
    assert(!lone_quote(q));
}

// ───────────────────────── reading back a nested setting ─────────────────────────

// ───────────────────────── reading back a nested setting ─────────────────────────

/// Two texts that agree before `n` have the same line at `p` when that line
/// ends before `n`.
proof fn lemma_same_line(c: Seq<char>, c2: Seq<char>, p: int, n: int)
    requires
        n <= c.len(),
        n <= c2.len(),
        forall|i: int| 0 <= i < n ==> #[trigger] c2[i] == c[i],
        line_end(c, p) < n,
    ensures
        0 <= p <= line_end(c, p),
        line_end(c2, p) == line_end(c, p),
        next_line(c2, p) == next_line(c, p),
        c2.subrange(p, line_end(c, p)) == c.subrange(p, line_end(c, p)),
{
    lemma_line_end_props(c, p);
    let le = line_end(c, p);
    assert(c2[le] == c[le]);
    lemma_line_end_at(c2, p, le);
    assert(c2.subrange(p, le) =~= c.subrange(p, le));
}

/// No match of `k` lies between the position that `key_pos_from` returns and `from`.
proof fn lemma_key_pos_from_above(l: Seq<char>, k: Seq<char>, from: nat)
    ensures
        key_pos_from(l, k, from) matches Some(b) ==> forall|j: int|
            b < j <= from ==> !matches_at(l, k, j),
    decreases from,
{
    if !matches_at(l, k, from as int) && from > 0 {
        lemma_key_pos_from_above(l, k, (from - 1) as nat);
    }
}

/// A match at `b` with none above it up to `from` is what `key_pos_from` returns.
proof fn lemma_key_pos_from_is(l: Seq<char>, k: Seq<char>, from: nat, b: nat)
    requires
        b <= from,
        matches_at(l, k, b as int),
        forall|j: int| b < j <= from ==> !matches_at(l, k, j),
    ensures
        key_pos_from(l, k, from) == Some(b),
    decreases from,
{
    if from > b {
        assert(!matches_at(l, k, from as int));
        lemma_key_pos_from_is(l, k, (from - 1) as nat, b);
    }
}

/// Two lines that agree up to the colon after a key start alike: the same
/// first character that is not white space, the same indent, the same key
/// position.
proof fn lemma_line_head_kept(l: Seq<char>, l2: Seq<char>, seg: Seq<char>, m: int)
    requires
        key_pos(l, seg) matches Some(b) && b + seg.len() + 1 <= m,
        m <= l.len(),
        m <= l2.len(),
        forall|i: int| 0 <= i < m ==> #[trigger] l2[i] == l[i],
    ensures
        trim(l).len() > 0,
        trim(l2).len() > 0,
        trim(l2)[0] == trim(l)[0],
        ws_indent(l2) == ws_indent(l),
        key_pos(l2, seg) == key_pos(l, seg),
{
    let k = seg + seq![':'];
    let from = blank_len(l);
    let b = key_pos(l, seg)->0;
    crate::yaml::lemma_key_pos_from(l, k, from);
    lemma_key_pos_from_above(l, k, from);
    let colon: int = (b + seg.len()) as int;
    assert(l.subrange(b as int, (b + k.len()) as int)[seg.len() as int] == l[colon]);
    assert(l[colon] == ':');
    // the white space before the first other character
    text::lemma_trim_start_is_suffix(l);
    let w: int = l.len() - text::trim_start(l).len();
    assert(w <= colon) by {
        if w > colon {
            assert(text::is_ws(l[colon]));
        }
    }
    assert(text::trim_start(l)[0] == l[w]);
    assert forall|j: int| 0 <= j < w implies text::is_ws(#[trigger] l2[j]) by {
        assert(l2[j] == l[j]);
    }
    assert(l2[w] == l[w]);
    text::lemma_trim_start_char(l2, w);
    text::lemma_trim_start_char(l, w);
    let s = l.skip(w);
    let s2 = l2.skip(w);
    text::lemma_trim_end_is_prefix(s);
    text::lemma_trim_end_is_prefix(s2);
    assert(s[0] == l[w]);
    assert(s2[0] == l[w]);
    assert(text::trim_end(s).len() > 0) by {
        if text::trim_end(s).len() == 0 {
            assert(text::is_ws(s[0]));
        }
    }
    assert(text::trim_end(s2).len() > 0) by {
        if text::trim_end(s2).len() == 0 {
            assert(text::is_ws(s2[0]));
        }
    }
    assert(text::trim_end(s)[0] == s[0]);
    assert(text::trim_end(s2)[0] == s2[0]);
    assert(l2.take(w) =~= l.take(w));
    assert(l2.len() - text::trim_start(l2).len() == w);
    // the blanks before the key
    lemma_blank_len_props(l);
    assert(from <= colon) by {
        if from > colon {
            assert(is_blank(l[colon]));
        }
    }
    assert forall|j: int| 0 <= j < from implies is_blank(#[trigger] l2[j]) by {
        assert(l2[j] == l[j]);
    }
    assert(l2[from as int] == l[from as int]);
    crate::yaml::lemma_blank_len(l2, from as int);
    assert(l2.subrange(b as int, (b + k.len()) as int) =~= l.subrange(b as int, (b + k.len()) as int));
    assert forall|j: int| b < j <= from implies !matches_at(l2, k, j) by {
        if matches_at(l2, k, j) {
            let x: int = from - j;
            assert(l2.subrange(j, j + k.len())[x] == l2[from as int]);
            assert(l.subrange(b as int, (b + k.len()) as int)[x] == l[b + x]);
            assert(is_blank(l[b + x]));
        }
    }
    lemma_key_pos_from_is(l2, k, from, b);
}

/// Where a segment found from `p` lies: on a line at or after `p`, with its
/// value inside the text.
proof fn lemma_seg_search_bounds(c: Seq<char>, p: int, parent: int, seg: Seq<char>, dci: Option<nat>)
    requires
        seg_search(c, p, parent, seg, dci) is Some,
    ensures
        0 <= p < c.len(),
        p < seg_search(c, p, parent, seg, dci)->0.value_start,
        seg_search(c, p, parent, seg, dci)->0.value_start <= seg_search(c, p, parent, seg, dci)->0.value_end,
        seg_search(c, p, parent, seg, dci)->0.value_end <= c.len(),
        next_line(c, p) <= seg_search(c, p, parent, seg, dci)->0.after_line,
    decreases c.len() - p,
{
    assert(0 <= p < c.len());
    lemma_line_end_props(c, p);
    let le = line_end(c, p);
    let l = c.subrange(p, le);
    let t = trim(l);
    let pn = next_line(c, p);
    if t.len() == 0 || t[0] == '#' {
        lemma_seg_search_bounds(c, pn, parent, seg, dci);
        lemma_line_end_props(c, pn);
    } else {
        let ind = ws_indent(l);
        let d = match dci {
            Some(d) => d,
            None => ind,
        };
        if ind == d && key_pos(l, seg) is Some {
            let b = key_pos(l, seg)->0;
            crate::yaml::lemma_key_pos_from(l, seg + seq![':'], blank_len(l));
            let key_end: int = p + b + seg.len() + 1;
            lemma_value_parts(c, key_end, le);
        } else {
            lemma_seg_search_bounds(c, pn, parent, seg, Some(d));
            lemma_line_end_props(c, pn);
        }
    }
}

/// A segment found on a line that ends before `n` is found alike in a text
/// that agrees with this one before `n`.
proof fn lemma_seg_search_kept(
    c: Seq<char>,
    c2: Seq<char>,
    p: int,
    parent: int,
    seg: Seq<char>,
    dci: Option<nat>,
    n: int,
)
    requires
        seg_search(c, p, parent, seg, dci) matches Some(h) && h.after_line < n,
        n <= c.len(),
        n <= c2.len(),
        forall|i: int| 0 <= i < n ==> #[trigger] c2[i] == c[i],
    ensures
        seg_search(c2, p, parent, seg, dci) == seg_search(c, p, parent, seg, dci),
    decreases c.len() - p,
{
    lemma_seg_search_bounds(c, p, parent, seg, dci);
    lemma_line_end_props(c, p);
    assert(line_end(c, p) < n);
    lemma_same_line(c, c2, p, n);
    let le = line_end(c, p);
    let l = c.subrange(p, le);
    let t = trim(l);
    let pn = next_line(c, p);
    if t.len() == 0 || t[0] == '#' {
        lemma_seg_search_kept(c, c2, pn, parent, seg, dci, n);
    } else {
        let ind = ws_indent(l);
        let d = match dci {
            Some(d) => d,
            None => ind,
        };
        if ind == d && key_pos(l, seg) is Some {
            let b = key_pos(l, seg)->0;
            crate::yaml::lemma_key_pos_from(l, seg + seq![':'], blank_len(l));
            let key_end: int = p + b + seg.len() + 1;
            assert(c2.subrange(key_end, le) =~= c.subrange(key_end, le));
        } else {
            lemma_seg_search_kept(c, c2, pn, parent, seg, Some(d), n);
        }
    }
}

/// Writing `"value"` as the value of the segment found on the line at `p`
/// leaves that line found, with `"value"` as its value.
proof fn lemma_hit_line_replaced(
    c: Seq<char>,
    p: int,
    parent: int,
    seg: Seq<char>,
    dci: Option<nat>,
    value: Seq<char>,
)
    requires
        0 <= p < c.len(),
        ({
            let l = c.subrange(p, line_end(c, p));
            &&& trim(l).len() > 0
            &&& trim(l)[0] != '#'
            &&& ws_indent(l) > parent
            &&& (dci matches Some(d) ==> ws_indent(l) == d)
            &&& key_pos(l, seg) is Some
        }),
        plain_value(value),
    ensures
        ({
            let h = seg_hit(c, p, seg, key_pos(c.subrange(p, line_end(c, p)), seg)->0);
            let c2 = c.take(h.value_start) + quoted(value) + c.skip(h.value_end);
            seg_search(c2, p, parent, seg, dci) matches Some(h2) && h2.raw == quoted(value)
        }),
{
    lemma_line_end_props(c, p);
    let le = line_end(c, p);
    let l = c.subrange(p, le);
    let k = seg + seq![':'];
    let b = key_pos(l, seg)->0;
    crate::yaml::lemma_key_pos_from(l, k, blank_len(l));
    let key_end: int = p + b + seg.len() + 1;
    assert(key_end <= le);
    lemma_value_parts(c, key_end, le);
    lemma_value_replaced(c, key_end, le, value);
    let h = seg_hit(c, p, seg, b);
    let q = quoted(value);
    let c2 = c.take(h.value_start) + q + c.skip(h.value_end);
    let le2 = le + q.len() - (h.value_end - h.value_start);
    assert forall|i: int| p <= i < le2 implies #[trigger] c2[i] != '\n' by {
        if i < key_end {
            assert(c2[i] == c[i]);
        }
    }
    lemma_line_end_at(c2, p, le2);
    let l2 = c2.subrange(p, le2);
    let m = h.value_start - p;
    assert forall|i: int| 0 <= i < m implies #[trigger] l2[i] == l[i] by {
        assert(l2[i] == c2[p + i]);
        assert(c2[p + i] == c[p + i]);
    }
    lemma_line_head_kept(l, l2, seg, m);
    assert(seg_hit(c2, p, seg, b).raw == q);
}

/// Writing `"value"` as the value of the segment found from `p` leaves it
/// found, with `"value"` as its value.
proof fn lemma_seg_search_replaced(
    c: Seq<char>,
    p: int,
    parent: int,
    seg: Seq<char>,
    dci: Option<nat>,
    value: Seq<char>,
)
    requires
        seg_search(c, p, parent, seg, dci) is Some,
        plain_value(value),
    ensures
        ({
            let h = seg_search(c, p, parent, seg, dci)->0;
            let c2 = c.take(h.value_start) + quoted(value) + c.skip(h.value_end);
            seg_search(c2, p, parent, seg, dci) matches Some(h2) && h2.raw == quoted(value)
        }),
    decreases c.len() - p,
{
    let h = seg_search(c, p, parent, seg, dci)->0;
    lemma_seg_search_bounds(c, p, parent, seg, dci);
    lemma_line_end_props(c, p);
    let le = line_end(c, p);
    let l = c.subrange(p, le);
    let t = trim(l);
    let pn = next_line(c, p);
    let q = quoted(value);
    let c2 = c.take(h.value_start) + q + c.skip(h.value_end);
    assert forall|i: int| 0 <= i < h.value_start implies #[trigger] c2[i] == c[i] by {}
    if t.len() == 0 || t[0] == '#' {
        lemma_seg_search_bounds(c, pn, parent, seg, dci);
        lemma_same_line(c, c2, p, h.value_start);
        lemma_seg_search_replaced(c, pn, parent, seg, dci, value);
    } else {
        let ind = ws_indent(l);
        let d = match dci {
            Some(d) => d,
            None => ind,
        };
        if ind == d && key_pos(l, seg) is Some {
            lemma_hit_line_replaced(c, p, parent, seg, dci, value);
        } else {
            lemma_seg_search_bounds(c, pn, parent, seg, Some(d));
            lemma_same_line(c, c2, p, h.value_start);
            lemma_seg_search_replaced(c, pn, parent, seg, Some(d), value);
        }
    }
}

/// The value that a walk along the segments finds lies after where it starts.
proof fn lemma_walk_bounds(c: Seq<char>, segs: Seq<Seq<char>>, i: int, p: int, parent: int)
    requires
        walk(c, segs, i, p, parent) is Some,
    ensures
        p < walk(c, segs, i, p, parent)->0.value_start,
        walk(c, segs, i, p, parent)->0.value_start <= walk(c, segs, i, p, parent)->0.value_end,
        walk(c, segs, i, p, parent)->0.value_end <= c.len(),
    decreases segs.len() - i,
{
    let hs = seg_search(c, p, parent, segs[i], None)->0;
    lemma_seg_search_bounds(c, p, parent, segs[i], None);
    if i < segs.len() - 1 {
        lemma_walk_bounds(c, segs, i + 1, hs.after_line, hs.indent as int);
        lemma_line_end_props(c, p);
    }
}

/// Writing `"value"` as the value that a walk finds leaves it found, with
/// `"value"` as its value.
proof fn lemma_walk_replaced(c: Seq<char>, segs: Seq<Seq<char>>, i: int, p: int, parent: int, value: Seq<char>)
    requires
        walk(c, segs, i, p, parent) is Some,
        plain_value(value),
    ensures
        ({
            let h = walk(c, segs, i, p, parent)->0;
            let c2 = c.take(h.value_start) + quoted(value) + c.skip(h.value_end);
            walk(c2, segs, i, p, parent) matches Some(h2) && h2.raw == quoted(value)
        }),
    decreases segs.len() - i,
{
    let hs = seg_search(c, p, parent, segs[i], None)->0;
    if i == segs.len() - 1 {
        lemma_seg_search_replaced(c, p, parent, segs[i], None, value);
    } else {
        let hf = walk(c, segs, i + 1, hs.after_line, hs.indent as int)->0;
        lemma_walk_replaced(c, segs, i + 1, hs.after_line, hs.indent as int, value);
        lemma_walk_bounds(c, segs, i + 1, hs.after_line, hs.indent as int);
        let c2 = c.take(hf.value_start) + quoted(value) + c.skip(hf.value_end);
        assert forall|j: int| 0 <= j < hf.value_start implies #[trigger] c2[j] == c[j] by {}
        lemma_seg_search_kept(c, c2, p, parent, segs[i], None, hf.value_start);
    }
}

/// A nested setting already present in the text, read right after it was
/// written, gives the value written (values without line breaks or `#`,
/// which would end the value), and the new text can be read.
pub proof fn law_nested_config_read_back(c: Seq<char>, key: Seq<char>, value: Seq<char>)
    requires
        path_segments(key).len() > 1,
        yaml_path_hit(c, key) is Some,
        plain_value(value),
    ensures
        config_set(c, key, value) matches Some(c2) && config_readable(c2, key) && hit_value(config_hit(c2, key))
            == Some(value),
{
    lemma_walk_replaced(c, path_segments(key), 0, 0, -1, value);
    let q = quoted(value);
    let h = yaml_path_hit(c, key)->0;
    let c2 = c.take(h.value_start) + q + c.skip(h.value_end);
    assert(c.take(h.value_start) + seq!['"'] + value + seq!['"'] + c.skip(h.value_end) =~= c2);
    assert(config_set(c, key, value) == Some(c2));
    assert(config_hit(c2, key) == yaml_path_hit(c2, key));
    lemma_trim_fixed(q);
    assert(q.subrange(1, q.len() - 1) =~= value);
    assert(unquote(q) == value);
    assert(!lone_quote(q));
}

} // verus!
