//! A JSON document model: the executable [`JsonValue`], its mathematical view
//! [`Json`], field access as `serde_json::Value` offers it, and dotted-path
//! reads and writes.
use vstd::prelude::*;
use crate::text::{chars_of, eq_chars, split, split_exec, string_of};

verus! {

// ───────────────────────── model ─────────────────────────

/// Mathematical JSON value. A number keeps its integer value when it has one,
/// and always its decimal text.
pub enum Json {
    Null,
    Bool(bool),
    Number(Option<int>, Seq<char>),
    Str(Seq<char>),
    Array(Seq<Json>),
    Object(Seq<(Seq<char>, Json)>),
}

/// A JSON number: `int` is `Some` exactly for integers, `text` is its decimal form.
pub struct JsonNumber {
    pub int: Option<i128>,
    pub text: String,
}

/// Executable JSON value. An object keeps its members in order.
pub enum JsonValue {
    Null,
    Bool(bool),
    Number(JsonNumber),
    Str(String),
    Array(Vec<JsonValue>),
    Object(Vec<(String, JsonValue)>),
}

pub open spec fn json_view(v: JsonValue) -> Json
    decreases v,
{
    match v {
        JsonValue::Null => Json::Null,
        JsonValue::Bool(b) => Json::Bool(b),
        JsonValue::Number(n) => Json::Number(
            match n.int {
                Some(i) => Some(i as int),
                None => None,
            },
            n.text@,
        ),
        JsonValue::Str(s) => Json::Str(s@),
        JsonValue::Array(a) => Json::Array(items_view(a@)),
        JsonValue::Object(m) => Json::Object(entries_view(m@)),
    }
}

pub open spec fn items_view(a: Seq<JsonValue>) -> Seq<Json>
    decreases a,
{
    Seq::new(
        a.len(),
        |i: int|
            if 0 <= i < a.len() {
                json_view(a[i])
            } else {
                Json::Null
            },
    )
}

pub open spec fn entries_view(m: Seq<(String, JsonValue)>) -> Seq<(Seq<char>, Json)>
    decreases m,
{
    Seq::new(
        m.len(),
        |i: int|
            if 0 <= i < m.len() {
                (m[i].0@, json_view(m[i].1))
            } else {
                (Seq::empty(), Json::Null)
            },
    )
}

impl View for JsonValue {
    type V = Json;

    open spec fn view(&self) -> Json {
        json_view(*self)
    }
}

// ───────────────────────── field access (spec) ─────────────────────────

/// Position of the first member named `k`.
pub open spec fn key_index(m: Seq<(Seq<char>, Json)>, k: Seq<char>) -> Option<int>
    decreases m.len(),
{
    if m.len() == 0 {
        None
    } else if m[0].0 == k {
        Some(0)
    } else {
        match key_index(m.drop_first(), k) {
            Some(i) => Some(i + 1),
            None => None,
        }
    }
}

/// Value of the first member named `k`.
pub open spec fn obj_get(m: Seq<(Seq<char>, Json)>, k: Seq<char>) -> Option<Json> {
    match key_index(m, k) {
        Some(i) => Some(m[i].1),
        None => None,
    }
}

impl Json {
    /// `Value::get` with a string key.
    pub open spec fn get(self, k: Seq<char>) -> Option<Json> {
        match self {
            Json::Object(m) => obj_get(m, k),
            _ => None,
        }
    }

    /// `value[k]`: the member, or `Null` when there is none.
    pub open spec fn field(self, k: Seq<char>) -> Json {
        match self.get(k) {
            Some(v) => v,
            None => Json::Null,
        }
    }

    pub open spec fn as_str(self) -> Option<Seq<char>> {
        match self {
            Json::Str(s) => Some(s),
            _ => None,
        }
    }

    pub open spec fn as_bool(self) -> Option<bool> {
        match self {
            Json::Bool(b) => Some(b),
            _ => None,
        }
    }

    pub open spec fn as_u64(self) -> Option<int> {
        match self {
            Json::Number(Some(i), _) => if 0 <= i <= u64::MAX {
                Some(i)
            } else {
                None
            },
            _ => None,
        }
    }

    pub open spec fn as_i64(self) -> Option<int> {
        match self {
            Json::Number(Some(i), _) => if i64::MIN <= i <= i64::MAX {
                Some(i)
            } else {
                None
            },
            _ => None,
        }
    }

    pub open spec fn as_array(self) -> Option<Seq<Json>> {
        match self {
            Json::Array(a) => Some(a),
            _ => None,
        }
    }

    /// `value[k].as_str()`.
    pub open spec fn str_field(self, k: Seq<char>) -> Option<Seq<char>> {
        self.field(k).as_str()
    }
}

/// Inserting a member: an existing first member named `k` gets the new value,
/// otherwise the member is appended.
pub open spec fn obj_insert(m: Seq<(Seq<char>, Json)>, k: Seq<char>, x: Json) -> Seq<(Seq<char>, Json)> {
    match key_index(m, k) {
        Some(i) => m.update(i, (k, x)),
        None => m.push((k, x)),
    }
}

pub proof fn lemma_key_index(m: Seq<(Seq<char>, Json)>, k: Seq<char>)
    ensures
        match key_index(m, k) {
            Some(i) => 0 <= i < m.len() && m[i].0 == k && forall|j: int|
                0 <= j < i ==> m[j].0 != k,
            None => forall|j: int| 0 <= j < m.len() ==> m[j].0 != k,
        },
    decreases m.len(),
{
    if m.len() > 0 && m[0].0 != k {
        lemma_key_index(m.drop_first(), k);
        let t = m.drop_first();
        match key_index(t, k) {
            Some(i) => {
                assert forall|j: int| 0 <= j < i + 1 implies m[j].0 != k by {
                    if j > 0 {
                        assert(m[j] == t[j - 1]);
                    }
                }
            },
            None => {
                assert forall|j: int| 0 <= j < m.len() implies m[j].0 != k by {
                    if j > 0 {
                        assert(m[j] == t[j - 1]);
                    }
                }
            },
        }
    }
}

pub proof fn lemma_key_index_first(m: Seq<(Seq<char>, Json)>, k: Seq<char>, i: int)
    requires
        0 <= i < m.len(),
        m[i].0 == k,
        forall|j: int| 0 <= j < i ==> m[j].0 != k,
    ensures
        key_index(m, k) == Some(i),
{
    lemma_key_index(m, k);
    match key_index(m, k) {
        Some(a) => {
            if a < i {
                assert(m[a].0 != k);
            }
            if a > i {
                assert(m[i].0 != k);
            }
        },
        None => {
            assert(m[i].0 != k);
        },
    }
}

pub proof fn lemma_key_index_none(m: Seq<(Seq<char>, Json)>, k: Seq<char>)
    requires
        forall|j: int| 0 <= j < m.len() ==> m[j].0 != k,
    ensures
        key_index(m, k) is None,
{
    lemma_key_index(m, k);
    if let Some(a) = key_index(m, k) {
        assert(m[a].0 != k);
    }
}

/// Reading back a member just inserted.
pub proof fn lemma_obj_insert_get(m: Seq<(Seq<char>, Json)>, k: Seq<char>, x: Json, k2: Seq<char>)
    ensures
        obj_get(obj_insert(m, k, x), k2) == if k2 == k {
            Some(x)
        } else {
            obj_get(m, k2)
        },
{
    lemma_key_index(m, k);
    lemma_key_index(m, k2);
    let n = obj_insert(m, k, x);
    match key_index(m, k) {
        Some(i) => {
            if k2 == k {
                lemma_key_index_first(n, k2, i);
            } else {
                match key_index(m, k2) {
                    Some(j) => {
                        lemma_key_index_first(n, k2, j);
                    },
                    None => {
                        lemma_key_index_none(n, k2);
                    },
                }
            }
        },
        None => {
            if k2 == k {
                lemma_key_index_first(n, k2, m.len() as int);
            } else {
                match key_index(m, k2) {
                    Some(j) => {
                        lemma_key_index_first(n, k2, j);
                    },
                    None => {
                        lemma_key_index_none(n, k2);
                    },
                }
            }
        },
    }
}

// ───────────────────────── dotted paths (spec) ─────────────────────────

/// The segments of a dotted path, as `path.split('.')` yields them.
pub open spec fn path_parts(path: Seq<char>) -> Seq<Seq<char>> {
    split(path, seq!['.'])
}

/// Following a sequence of member names through nested objects.
pub open spec fn path_get(v: Json, parts: Seq<Seq<char>>) -> Option<Json>
    decreases parts.len(),
{
    if parts.len() == 0 {
        Some(v)
    } else {
        match v {
            Json::Object(m) => match obj_get(m, parts[0]) {
                Some(c) => path_get(c, parts.drop_first()),
                None => None,
            },
            _ => None,
        }
    }
}

/// Writing `x` at the end of a member path. Missing intermediate members are
/// created as empty objects; the write stops where a non-object is met.
pub open spec fn path_set(v: Json, parts: Seq<Seq<char>>, x: Json) -> Json
    decreases parts.len(),
{
    if parts.len() == 0 {
        v
    } else {
        match v {
            Json::Object(m) => if parts.len() == 1 {
                Json::Object(obj_insert(m, parts[0], x))
            } else {
                let child = match obj_get(m, parts[0]) {
                    Some(c) => c,
                    None => Json::Object(seq![]),
                };
                Json::Object(obj_insert(m, parts[0], path_set(child, parts.drop_first(), x)))
            },
            _ => v,
        }
    }
}

/// Every object met along `parts` (where one exists) is an object, starting at `v`.
pub open spec fn path_settable(v: Json, parts: Seq<Seq<char>>) -> bool
    decreases parts.len(),
{
    if parts.len() == 0 {
        false
    } else {
        match v {
            Json::Object(m) => parts.len() == 1 || match obj_get(m, parts[0]) {
                Some(c) => path_settable(c, parts.drop_first()),
                None => true,
            },
            _ => false,
        }
    }
}

proof fn lemma_fresh_settable(parts: Seq<Seq<char>>)
    requires
        parts.len() > 0,
    ensures
        path_settable(Json::Object(seq![]), parts),
{
}

/// Reading a path right after writing it gives the value written.
pub proof fn law_path_set_then_get(v: Json, parts: Seq<Seq<char>>, x: Json)
    requires
        path_settable(v, parts),
    ensures
        path_get(path_set(v, parts, x), parts) == Some(x),
    decreases parts.len(),
{
    if let Json::Object(m) = v {
        lemma_obj_insert_get(m, parts[0], x, parts[0]);
        if parts.len() > 1 {
            assert(path_set(v, parts, x) == Json::Object(obj_insert(m, parts[0], path_set(
                match obj_get(m, parts[0]) {
                    Some(c) => c,
                    None => Json::Object(seq![]),
                },
                parts.drop_first(),
                x,
            ))));
            let child = match obj_get(m, parts[0]) {
                Some(c) => c,
                None => Json::Object(seq![]),
            };
            if obj_get(m, parts[0]) is None {
                lemma_fresh_settable(parts.drop_first());
            }
            law_path_set_then_get(child, parts.drop_first(), x);
            lemma_obj_insert_get(m, parts[0], path_set(child, parts.drop_first(), x), parts[0]);
        } else {
            assert(parts.drop_first().len() == 0);
            assert(path_set(v, parts, x) == Json::Object(obj_insert(m, parts[0], x)));
            assert(path_get(x, parts.drop_first()) == Some(x));
        }
    }
}

/// Writing a path leaves every other top-level member as it was.
pub proof fn law_path_set_keeps_other_members(v: Json, parts: Seq<Seq<char>>, x: Json, k: Seq<char>)
    requires
        parts.len() > 0,
        k != parts[0],
    ensures
        path_set(v, parts, x).get(k) == v.get(k),
{
    if let Json::Object(m) = v {
        if parts.len() == 1 {
            lemma_obj_insert_get(m, parts[0], x, k);
        } else {
            let child = match obj_get(m, parts[0]) {
                Some(c) => c,
                None => Json::Object(seq![]),
            };
            lemma_obj_insert_get(m, parts[0], path_set(child, parts.drop_first(), x), k);
        }
    }
}

// ───────────────────────── parsing ─────────────────────────

#[verifier::external_type_specification]
#[verifier::external_body]
pub struct ExSerdeJsonValue(serde_json::Value);

/// What `serde_json::from_str::<serde_json::Value>` yields for a text, in this model.
pub uninterp spec fn json_parse(text: Seq<char>) -> Option<Json>;

/// Converts a parsed `serde_json::Value` into the library's model, variant by variant.
#[verifier::external_body]
pub(crate) fn from_serde(v: &serde_json::Value) -> JsonValue {
    match v {
        serde_json::Value::Null => JsonValue::Null,
        serde_json::Value::Bool(b) => JsonValue::Bool(*b),
        serde_json::Value::Number(n) => JsonValue::Number(JsonNumber {
            int: n.as_i64().map(i128::from).or(n.as_u64().map(i128::from)),
            text: n.to_string(),
        }),
        serde_json::Value::String(s) => JsonValue::Str(s.clone()),
        serde_json::Value::Array(a) => JsonValue::Array(a.iter().map(from_serde).collect()),
        serde_json::Value::Object(m) => JsonValue::Object(m.iter().map(|(k, x)| (k.clone(), from_serde(x))).collect()),
    }
}

/// `serde_json::from_str::<serde_json::Value>`: `None` when the text is not JSON.
/// The contract only names the result (`json_parse`); JSON syntax is not restated here.
#[verifier::external_body]
pub fn parse_json(text: &str) -> (r: Option<JsonValue>)
    ensures
        match r {
            Some(v) => json_parse(text@) == Some(v@),
            None => json_parse(text@) is None,
        },
{
    serde_json::from_str::<serde_json::Value>(text).ok().map(|v| from_serde(&v))
}

// ───────────────────────── executable access ─────────────────────────

/// Index of the first member named `key`.
pub fn find_key(m: &Vec<(String, JsonValue)>, key: &Vec<char>) -> (r: Option<usize>)
    ensures
        match r {
            Some(i) => key_index(entries_view(m@), key@) == Some(i as int) && i < m@.len(),
            None => key_index(entries_view(m@), key@) is None,
        },
{
    let ghost e = entries_view(m@);
    let mut i: usize = 0;
    while i < m.len()
        invariant
            i <= m.len(),
            e == entries_view(m@),
            e.len() == m@.len(),
            forall|j: int| 0 <= j < i ==> e[j].0 != key@,
        decreases m.len() - i,
    {
        let k = chars_of(m[i].0.as_str());
        if eq_chars(&k, key) {
            proof {
                lemma_key_index_first(e, key@, i as int);
            }
            return Some(i);
        }
        i += 1;
    }
    proof {
        lemma_key_index_none(e, key@);
    }
    None
}

impl JsonValue {
    /// `Value::get(key)`.
    pub fn get(&self, key: &str) -> (r: Option<&JsonValue>)
        ensures
            match r {
                Some(x) => self@.get(key@) == Some(x@),
                None => self@.get(key@) is None,
            },
    {
        match self {
            JsonValue::Object(m) => {
                let k = chars_of(key);
                match find_key(m, &k) {
                    Some(i) => Some(&m[i].1),
                    None => None,
                }
            },
            _ => None,
        }
    }

    /// `Value::as_str`, owned.
    pub fn as_string(&self) -> (r: Option<String>)
        ensures
            match r {
                Some(s) => self@.as_str() == Some(s@),
                None => self@.as_str() is None,
            },
    {
        match self {
            JsonValue::Str(s) => Some(s.clone()),
            _ => None,
        }
    }

    pub fn as_bool(&self) -> (r: Option<bool>)
        ensures
            r == self@.as_bool(),
    {
        match self {
            JsonValue::Bool(b) => Some(*b),
            _ => None,
        }
    }

    pub fn as_u64(&self) -> (r: Option<u64>)
        ensures
            match r {
                Some(n) => self@.as_u64() == Some(n as int),
                None => self@.as_u64() is None,
            },
    {
        match self {
            JsonValue::Number(n) => match n.int {
                Some(i) => if 0 <= i && i <= 0xffff_ffff_ffff_ffffi128 {
                    Some(i as u64)
                } else {
                    None
                },
                None => None,
            },
            _ => None,
        }
    }

    pub fn as_i64(&self) -> (r: Option<i64>)
        ensures
            match r {
                Some(n) => self@.as_i64() == Some(n as int),
                None => self@.as_i64() is None,
            },
    {
        match self {
            JsonValue::Number(n) => match n.int {
                Some(i) => if -0x8000_0000_0000_0000i128 <= i && i <= 0x7fff_ffff_ffff_ffffi128 {
                    Some(i as i64)
                } else {
                    None
                },
                None => None,
            },
            _ => None,
        }
    }

    /// `value[key].as_str()`, owned.
    pub fn str_field(&self, key: &str) -> (r: Option<String>)
        ensures
            match r {
                Some(s) => self@.str_field(key@) == Some(s@),
                None => self@.str_field(key@) is None,
            },
    {
        match self.get(key) {
            Some(x) => x.as_string(),
            None => None,
        }
    }

    /// `value[key].as_u64()`.
    pub fn u64_field(&self, key: &str) -> (r: Option<u64>)
        ensures
            match r {
                Some(n) => self@.field(key@).as_u64() == Some(n as int),
                None => self@.field(key@).as_u64() is None,
            },
    {
        match self.get(key) {
            Some(x) => x.as_u64(),
            None => None,
        }
    }

    /// `value[key].as_i64()`.
    pub fn i64_field(&self, key: &str) -> (r: Option<i64>)
        ensures
            match r {
                Some(n) => self@.field(key@).as_i64() == Some(n as int),
                None => self@.field(key@).as_i64() is None,
            },
    {
        match self.get(key) {
            Some(x) => x.as_i64(),
            None => None,
        }
    }

    /// `value[key].as_bool()`.
    pub fn bool_field(&self, key: &str) -> (r: Option<bool>)
        ensures
            r == self@.field(key@).as_bool(),
    {
        match self.get(key) {
            Some(x) => x.as_bool(),
            None => None,
        }
    }

}

// ───────────────────────── dotted paths (executable) ─────────────────────────

/// Gets a value by dot-separated path, e.g. `"memory.provider"` reads
/// `value["memory"]["provider"]`.
pub fn get_json_path<'a>(value: &'a JsonValue, path: &str) -> (r: Option<&'a JsonValue>)
    ensures
        match r {
            Some(x) => path_get(value@, path_parts(path@)) == Some(x@),
            None => path_get(value@, path_parts(path@)) is None,
        },
{
    let p = chars_of(path);
    let dot: Vec<char> = vec!['.'];
    assert(dot@ =~= seq!['.']);
    let parts = split_exec(&p, &dot);
    let ghost ps = path_parts(path@);
    let mut current = value;
    let mut i: usize = 0;
    assert(ps.skip(0) =~= ps);
    while i < parts.len()
        invariant
            i <= parts.len(),
            ps == path_parts(path@),
            parts@.len() == ps.len(),
            forall|k: int| 0 <= k < parts@.len() ==> #[trigger] parts@[k]@ == ps[k],
            path_get(value@, ps) == path_get(current@, ps.skip(i as int)),
        decreases parts.len() - i,
    {
        let ghost rest = ps.skip(i as int);
        assert(rest[0] == parts@[i as int]@);
        assert(rest.drop_first() =~= ps.skip(i + 1));
        match current {
            JsonValue::Object(m) => {
                assert(current@ == Json::Object(entries_view(m@)));
                match find_key(m, &parts[i]) {
                    Some(j) => {
                        current = &m[j].1;
                    },
                    None => {
                        assert(key_index(entries_view(m@), rest[0]) is None);
                        assert(obj_get(entries_view(m@), rest[0]) is None);
                        assert(rest.len() > 0);
                        assert(path_get(current@, rest) is None);
                        return None;
                    },
                }
            },
            _ => {
                assert(!(current@ is Object));
                return None;
            },
        }
        i += 1;
    }
    assert(ps.skip(i as int).len() == 0);
    Some(current)
}

fn set_path_rec(v: JsonValue, parts: &Vec<Vec<char>>, i: usize, x: JsonValue) -> (r: JsonValue)
    requires
        i <= parts.len(),
    ensures
        r@ == path_set(v@, parts@.skip(i as int).map_values(|p: Vec<char>| p@), x@),
    decreases parts.len() - i,
{
    let ghost ps = parts@.skip(i as int).map_values(|p: Vec<char>| p@);
    if i == parts.len() {
        assert(ps.len() == 0);
        return v;
    }
    assert(ps[0] == parts@[i as int]@);
    assert(ps.drop_first() =~= parts@.skip(i + 1).map_values(|p: Vec<char>| p@));
    match v {
        JsonValue::Object(m) => {
            let mut m = m;
            let ghost e0 = entries_view(m@);
            let key = string_of(parts[i].as_slice());
            let found = find_key(&m, &parts[i]);
            if i + 1 == parts.len() {
                match found {
                    Some(j) => {
                        m.set(j, (key, x));
                        proof {
                            assert(entries_view(m@) =~= e0.update(j as int, (ps[0], x@)));
                        }
                    },
                    None => {
                        m.push((key, x));
                        proof {
                            assert(entries_view(m@) =~= e0.push((ps[0], x@)));
                        }
                    },
                }
                JsonValue::Object(m)
            } else {
                match found {
                    Some(j) => {
                        let (_k, child) = m.remove(j);
                        proof {
                            assert(child@ == e0[j as int].1);
                        }
                        let nc = set_path_rec(child, parts, i + 1, x);
                        m.insert(j, (key, nc));
                        proof {
                            assert(entries_view(m@) =~= e0.update(j as int, (ps[0], nc@)));
                        }
                        JsonValue::Object(m)
                    },
                    None => {
                        let empty: Vec<(String, JsonValue)> = Vec::new();
                        proof {
                            assert(entries_view(empty@) =~= seq![]);
                        }
                        let fresh = JsonValue::Object(empty);
                        let nc = set_path_rec(fresh, parts, i + 1, x);
                        m.push((key, nc));
                        proof {
                            assert(entries_view(m@) =~= e0.push((ps[0], nc@)));
                        }
                        JsonValue::Object(m)
                    },
                }
            }
        },
        other => other,
    }
}

/// Sets a value at a dot-separated path, creating missing intermediate objects.
pub fn set_json_path(value: &mut JsonValue, path: &str, new_val: JsonValue)
    ensures
        final(value)@ == path_set(old(value)@, path_parts(path@), new_val@),
{
    let p = chars_of(path);
    let dot: Vec<char> = vec!['.'];
    assert(dot@ =~= seq!['.']);
    let parts = split_exec(&p, &dot);
    proof {
        assert(parts@.skip(0).map_values(|q: Vec<char>| q@) =~= path_parts(path@));
    }
    let mut old_v = JsonValue::Null;
    std::mem::swap(&mut old_v, value);
    *value = set_path_rec(old_v, &parts, 0, new_val);
}


/// A deep copy of a JSON value.
pub fn json_copy(v: &JsonValue) -> (r: JsonValue)
    ensures
        r@ == v@,
    decreases v,
{
    match v {
        JsonValue::Null => JsonValue::Null,
        JsonValue::Bool(b) => JsonValue::Bool(*b),
        JsonValue::Number(n) => {
            let t = chars_of(n.text.as_str());
            JsonValue::Number(JsonNumber { int: n.int, text: string_of(t.as_slice()) })
        },
        JsonValue::Str(s) => {
            let t = chars_of(s.as_str());
            JsonValue::Str(string_of(t.as_slice()))
        },
        JsonValue::Array(a) => {
            let mut out: Vec<JsonValue> = Vec::new();
            let mut i: usize = 0;
            while i < a.len()
                invariant
                    i <= a.len(),
                    out@.len() == i,
                    *v == JsonValue::Array(*a),
                    forall|k: int| 0 <= k < i ==> #[trigger] out@[k]@ == a@[k]@,
                decreases a.len() - i,
            {
                proof {
                    assert(decreases_to!(*v => (*v)->Array_0));
                    assert(decreases_to!(*a => a@));
                    assert(decreases_to!(a@ => a@[i as int]));
                }
                let x = json_copy(&a[i]);
                out.push(x);
                i += 1;
            }
            assert forall|k: int| 0 <= k < out@.len() implies items_view(out@)[k] == items_view(a@)[k] by {
                assert(out@[k]@ == a@[k]@);
            }
            assert(items_view(out@) =~= items_view(a@));
            JsonValue::Array(out)
        },
        JsonValue::Object(m) => {
            let mut out: Vec<(String, JsonValue)> = Vec::new();
            let mut i: usize = 0;
            while i < m.len()
                invariant
                    i <= m.len(),
                    out@.len() == i,
                    *v == JsonValue::Object(*m),
                    forall|k: int| #![trigger out@[k]] 0 <= k < i ==> out@[k].0@ == m@[k].0@ && out@[k].1@ == m@[k].1@,
                decreases m.len() - i,
            {
                proof {
                    assert(decreases_to!(*v => (*v)->Object_0));
                    assert(decreases_to!(*m => m@));
                    assert(decreases_to!(m@ => m@[i as int]));
                    assert(decreases_to!(m@[i as int] => m@[i as int].1));
                }
                let k = chars_of(m[i].0.as_str());
                let x = json_copy(&m[i].1);
                out.push((string_of(k.as_slice()), x));
                i += 1;
            }
            assert forall|k: int| 0 <= k < out@.len() implies entries_view(out@)[k] == entries_view(m@)[k] by {
                assert(out@[k].0@ == m@[k].0@ && out@[k].1@ == m@[k].1@);
            }
            assert(entries_view(out@) =~= entries_view(m@));
            JsonValue::Object(out)
        },
    }
}


/// `map.insert(key, x)` on the members of an object: the first member named
/// `key` gets the value, or the member is appended.
pub fn obj_insert_exec(m: Vec<(String, JsonValue)>, key: &str, x: JsonValue) -> (r: Vec<(String, JsonValue)>)
    ensures
        entries_view(r@) == obj_insert(entries_view(m@), key@, x@),
{
    let mut m = m;
    let ghost e0 = entries_view(m@);
    let k = chars_of(key);
    let ks = string_of(k.as_slice());
    match find_key(&m, &k) {
        Some(j) => {
            m.set(j, (ks, x));
            assert(entries_view(m@) =~= e0.update(j as int, (key@, x@)));
        },
        None => {
            m.push((ks, x));
            assert(entries_view(m@) =~= e0.push((key@, x@)));
        },
    }
    m
}


/// `v[a][b]` where it is present.
pub fn field2<'a>(v: &'a JsonValue, a: &str, b: &str) -> (r: Option<&'a JsonValue>)
    ensures
        match r {
            Some(x) => v@.field(a@).field(b@) == x@,
            None => v@.field(a@).field(b@) == Json::Null,
        },
{
    match v.get(a) {
        Some(x) => x.get(b),
        None => None,
    }
}

} // verus!
