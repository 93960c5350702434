//! Model discovery: which providers can list their models, where to ask,
//! how a listing is read, and the five-minute cache of listings.
use vstd::prelude::*;
use crate::json::{items_view, json_parse, parse_json, Json, JsonValue};
use crate::kv::StrMap;
use crate::text::{
    chars_of, lemma_text_order_antisym, lemma_text_order_trans, lowercase, string_of, text_order,
    text_order_exec, to_lowercase, trim, trim_end_char,
};
use crate::text;
use crate::cli::strings_view;

verus! {

/// The answer to a discovery request.
pub struct DiscoverModelsResult {
    pub models: Vec<String>,
    /// `ok`, `no-key`, `unsupported` or `unknown-host`.
    pub status: String,
    pub cached: bool,
}

// ───────────────────────── providers ─────────────────────────

/// The API base of the providers that list their models.
pub open spec fn provider_base(p: Seq<char>) -> Option<Seq<char>> {
    if p == "openai"@ { Some("https://api.openai.com/v1"@) }
    else if p == "openrouter"@ { Some("https://openrouter.ai/api/v1"@) }
    else if p == "deepseek"@ { Some("https://api.deepseek.com/v1"@) }
    else if p == "groq"@ { Some("https://api.groq.com/openai/v1"@) }
    else if p == "mistral"@ { Some("https://api.mistral.ai/v1"@) }
    else if p == "together"@ { Some("https://api.together.xyz/v1"@) }
    else if p == "fireworks"@ { Some("https://api.fireworks.ai/inference/v1"@) }
    else if p == "cerebras"@ { Some("https://api.cerebras.ai/v1"@) }
    else if p == "perplexity"@ { Some("https://api.perplexity.ai"@) }
    else if p == "huggingface"@ { Some("https://router.huggingface.co/v1"@) }
    else if p == "zai"@ { Some("https://api.z.ai/api/paas/v4"@) }
    else if p == "anthropic"@ { Some("https://api.anthropic.com/v1"@) }
    else { None }
}

/// The providers whose models cannot be listed (`custom` is in the list but
/// is asked all the same).
pub open spec fn non_discoverable(p: Seq<char>) -> bool {
    p == "auto"@ || p == "custom"@ || p == "nous"@ || p == "google"@ || p == "xai"@
        || p == "openai-codex"@ || p == "xai-oauth"@ || p == "qwen-oauth"@ || p == "qwen"@
        || p == "minimax"@ || p == "kimi-coding"@
}

/// The API base of a provider, by its lower-cased name.
pub fn canonical_base_url(provider: &str) -> (r: Option<String>)
    ensures
        crate::settings::opt_string_view(r) == provider_base(lowercase(provider@)),
{
    let p = to_lowercase(provider);
    let ps = p.as_str();
    if text::str_eq(ps, "openai") { Some(text::owned("https://api.openai.com/v1")) }
    else if text::str_eq(ps, "openrouter") { Some(text::owned("https://openrouter.ai/api/v1")) }
    else if text::str_eq(ps, "deepseek") { Some(text::owned("https://api.deepseek.com/v1")) }
    else if text::str_eq(ps, "groq") { Some(text::owned("https://api.groq.com/openai/v1")) }
    else if text::str_eq(ps, "mistral") { Some(text::owned("https://api.mistral.ai/v1")) }
    else if text::str_eq(ps, "together") { Some(text::owned("https://api.together.xyz/v1")) }
    else if text::str_eq(ps, "fireworks") { Some(text::owned("https://api.fireworks.ai/inference/v1")) }
    else if text::str_eq(ps, "cerebras") { Some(text::owned("https://api.cerebras.ai/v1")) }
    else if text::str_eq(ps, "perplexity") { Some(text::owned("https://api.perplexity.ai")) }
    else if text::str_eq(ps, "huggingface") { Some(text::owned("https://router.huggingface.co/v1")) }
    else if text::str_eq(ps, "zai") { Some(text::owned("https://api.z.ai/api/paas/v4")) }
    else if text::str_eq(ps, "anthropic") { Some(text::owned("https://api.anthropic.com/v1")) }
    else { None }
}

fn non_discoverable_exec(p: &str) -> (b: bool)
    ensures
        b == non_discoverable(p@),
{
    text::str_eq(p, "auto") || text::str_eq(p, "custom") || text::str_eq(p, "nous") || text::str_eq(p, "google")
        || text::str_eq(p, "xai") || text::str_eq(p, "openai-codex") || text::str_eq(p, "xai-oauth")
        || text::str_eq(p, "qwen-oauth") || text::str_eq(p, "qwen") || text::str_eq(p, "minimax")
        || text::str_eq(p, "kimi-coding")
}

/// The cache key of a provider and base: both lower-cased, the base without
/// trailing slashes, joined by `|`.
pub open spec fn cache_key_of(provider: Seq<char>, base_url: Seq<char>) -> Seq<char> {
    lowercase(provider) + "|"@ + lowercase(trim_end_char(base_url, '/'))
}

fn trim_end_slashes(s: &str) -> (r: String)
    ensures
        r@ == trim_end_char(s@, '/'),
{
    let cs = chars_of(s);
    let mut n = cs.len();
    assert(cs@.take(n as int) =~= cs@);
    while n > 0 && cs[n - 1] == '/'
        invariant
            n <= cs.len(),
            trim_end_char(cs@, '/') == trim_end_char(cs@.take(n as int), '/'),
        decreases n,
    {
        assert(cs@.take(n as int).drop_last() =~= cs@.take(n - 1));
        n -= 1;
    }
    let t = text::slice(&cs, 0, n);
    assert(t@ =~= cs@.take(n as int));
    assert(n == 0 || cs@.take(n as int).last() != '/');
    string_of(t.as_slice())
}

pub fn cache_key(provider: &str, base_url: &str) -> (r: String)
    ensures
        r@ == cache_key_of(provider@, base_url@),
{
    let p = to_lowercase(provider);
    let b = trim_end_slashes(base_url);
    let bl = to_lowercase(b.as_str());
    text::concat3(p.as_str(), "|", bl.as_str())
}

// ───────────────────────── the request ─────────────────────────

/// Where a request goes, or the answer given without one.
pub enum DiscoveryTarget {
    /// Ask `base` for the models of `provider` (lower-cased, trimmed).
    Ask { provider: String, base: String },
    Answer(DiscoverModelsResult),
}

pub open spec fn lower_name(provider: Seq<char>) -> Seq<char> {
    lowercase(trim(provider))
}

/// The base that is asked: the given one without trailing slashes, else
/// the provider's own.
pub open spec fn target_base(provider: Seq<char>, base_url: Option<Seq<char>>) -> Seq<char> {
    let given = match base_url {
        Some(b) => trim_end_char(b, '/'),
        None => seq![],
    };
    if given.len() > 0 {
        given
    } else {
        match provider_base(lowercase(lower_name(provider))) {
            Some(b) => b,
            None => seq![],
        }
    }
}

pub open spec fn result_view(r: DiscoverModelsResult) -> (Seq<Seq<char>>, Seq<char>, bool) {
    (strings_view(r.models@), r.status@, r.cached)
}

fn answer(status: &str) -> (r: DiscoverModelsResult)
    ensures
        result_view(r) == (Seq::<Seq<char>>::empty(), status@, false),
{
    let r = DiscoverModelsResult { models: Vec::new(), status: text::owned(status), cached: false };
    assert(strings_view(r.models@) =~= Seq::<Seq<char>>::empty());
    r
}

/// The first step of discovery: providers that cannot list models are
/// `unsupported`; without a base to ask the host is `unknown-host`.
pub fn discovery_target(provider: &str, base_url: Option<&str>) -> (r: DiscoveryTarget)
    ensures
        ({
            let lower = lower_name(provider@);
            let base = target_base(provider@, crate::paths::opt_view(base_url));
            if non_discoverable(lower) && lower != "custom"@ {
                r matches DiscoveryTarget::Answer(a) && result_view(a) == (Seq::<Seq<char>>::empty(), "unsupported"@, false)
            } else if base.len() == 0 {
                r matches DiscoveryTarget::Answer(a) && result_view(a) == (Seq::<Seq<char>>::empty(), "unknown-host"@, false)
            } else {
                r matches DiscoveryTarget::Ask { provider: p, base: b } && p@ == lower && b@ == base
            }
        }),
{
    let t = text::trim_str(provider);
    let lower = to_lowercase(t.as_str());
    if non_discoverable_exec(lower.as_str()) && !text::str_eq(lower.as_str(), "custom") {
        return DiscoveryTarget::Answer(answer("unsupported"));
    }
    let given = match base_url {
        Some(b) => trim_end_slashes(b),
        None => String::new(),
    };
    let gc = chars_of(given.as_str());
    let base = if gc.len() > 0 {
        given
    } else {
        match canonical_base_url(lower.as_str()) {
            Some(b) => b,
            None => String::new(),
        }
    };
    let bc = chars_of(base.as_str());
    if bc.len() == 0 {
        return DiscoveryTarget::Answer(answer("unknown-host"));
    }
    DiscoveryTarget::Ask { provider: lower, base }
}

/// The listing request: `<base>/models`, accepting JSON, with the key as
/// `x-api-key` and the API version for Anthropic and as a bearer token
/// otherwise. Without a key the answer is `no-key`.
pub fn discovery_request(provider: &str, base: &str, api_key: Option<&str>) -> (r: Result<(String, StrMap), DiscoverModelsResult>)
    ensures
        ({
            let key = match api_key { Some(k) => k@, None => seq![] };
            if key.len() == 0 {
                r matches Err(a) && result_view(a) == (Seq::<Seq<char>>::empty(), "no-key"@, false)
            } else {
                r matches Ok((url, h)) && url@ == trim_end_char(base@, '/') + "/models"@
                    && h@ == (if provider@ == "anthropic"@ {
                        map!["Accept"@ => "application/json"@, "x-api-key"@ => key, "anthropic-version"@ => "2023-06-01"@]
                    } else {
                        map!["Accept"@ => "application/json"@, "Authorization"@ => "Bearer "@ + key]
                    })
            }
        }),
{
    let key = match api_key {
        Some(k) => text::owned(k),
        None => String::new(),
    };
    let kc = chars_of(key.as_str());
    if kc.len() == 0 {
        return Err(answer("no-key"));
    }
    let b = trim_end_slashes(base);
    let url = text::concat2(b.as_str(), "/models");
    let mut h = StrMap::new();
    h.insert(text::owned("Accept"), text::owned("application/json"));
    if text::str_eq(provider, "anthropic") {
        h.insert(text::owned("x-api-key"), key);
        h.insert(text::owned("anthropic-version"), text::owned("2023-06-01"));
        proof {
            reveal_strlit("Accept");
            reveal_strlit("x-api-key");
            reveal_strlit("anthropic-version");
        }
    } else {
        let bearer = text::concat2("Bearer ", key.as_str());
        h.insert(text::owned("Authorization"), bearer);
        proof {
            reveal_strlit("Accept");
            reveal_strlit("Authorization");
        }
    }
    Ok((url, h))
}

/// The answer once the models are known.
pub fn discovery_result(models: Vec<String>, cached: bool) -> (r: DiscoverModelsResult)
    ensures
        result_view(r) == (strings_view(models@), "ok"@, cached),
{
    DiscoverModelsResult { models, status: text::owned("ok"), cached }
}


// ───────────────────────── reading a listing ─────────────────────────

/// The id of a listed model: its `id`, or (in a `models` list) its `name`.
pub open spec fn item_id(item: Json, or_name: bool) -> Option<Seq<char>> {
    match item.str_field("id"@) {
        Some(s) => Some(s),
        None => if or_name { item.str_field("name"@) } else { None },
    }
}

pub open spec fn ids_from(items: Seq<Json>, or_name: bool) -> Seq<Seq<char>>
    decreases items.len(),
{
    if items.len() == 0 {
        seq![]
    } else {
        let rest = ids_from(items.drop_last(), or_name);
        match item_id(items.last(), or_name) {
            Some(s) => rest.push(s),
            None => rest,
        }
    }
}

/// The ids a listing names: those of its `data` array, then those of its
/// `models` array.
pub open spec fn listed_ids(v: Json) -> Seq<Seq<char>> {
    let data = match v.field("data"@).as_array() {
        Some(a) => ids_from(a, false),
        None => seq![],
    };
    let models = match v.field("models"@).as_array() {
        Some(a) => ids_from(a, true),
        None => seq![],
    };
    data + models
}

/// A body that is not JSON reads as `null`.
pub open spec fn body_json(body: Seq<char>) -> Json {
    match json_parse(body) {
        Some(v) => v,
        None => Json::Null,
    }
}

/// Each text sorts strictly before every later one: sorted, nothing twice.
pub open spec fn strictly_sorted(s: Seq<Seq<char>>) -> bool {
    forall|i: int, j: int| 0 <= i < j < s.len() ==> text_order(#[trigger] s[i], #[trigger] s[j]) < 0
}

fn insert_sorted(v: &mut Vec<String>, x: String)
    requires
        strictly_sorted(strings_view(old(v)@)),
    ensures
        strictly_sorted(strings_view(final(v)@)),
        forall|y: Seq<char>| #[trigger] strings_view(final(v)@).contains(y)
            <==> (strings_view(old(v)@).contains(y) || y == x@),
{
    let ghost sv = strings_view(v@);
    let mut j: usize = 0;
    while j < v.len() && text_order_exec(v[j].as_str(), x.as_str()) < 0
        invariant
            j <= v.len(),
            sv == strings_view(v@),
            v@ == old(v)@,
            forall|i: int| 0 <= i < j ==> text_order(#[trigger] sv[i], x@) < 0,
        decreases v.len() - j,
    {
        assert(sv[j as int] == v@[j as int]@);
        j += 1;
    }
    if j < v.len() {
        assert(sv[j as int] == v@[j as int]@);
        let c = text_order_exec(v[j].as_str(), x.as_str());
        if c == 0 {
            proof {
                lemma_text_order_antisym(sv[j as int], x@);
                assert(sv.contains(x@));
            }
            return;
        }
        proof {
            lemma_text_order_antisym(sv[j as int], x@);
        }
    }
    let ghost xv = x@;
    v.insert(j, x);
    proof {
        let w = strings_view(v@);
        assert(w =~= sv.insert(j as int, xv));
        assert forall|a: int, b: int| 0 <= a < b < w.len() implies text_order(#[trigger] w[a], #[trigger] w[b]) < 0 by {
            if b < j {
                assert(w[a] == sv[a] && w[b] == sv[b]);
            } else if b == j {
                assert(w[a] == sv[a]);
            } else if a == j {
                assert(w[b] == sv[b - 1]);
                if b - 1 > j {
                    assert(text_order(sv[j as int], sv[b - 1]) < 0);
                    lemma_text_order_trans(xv, sv[j as int], sv[b - 1]);
                }
            } else if a < j {
                assert(w[a] == sv[a] && w[b] == sv[b - 1]);
                assert(text_order(sv[a], xv) < 0);
                if b - 1 > j {
                    assert(text_order(sv[j as int], sv[b - 1]) < 0);
                    lemma_text_order_trans(xv, sv[j as int], sv[b - 1]);
                }
                lemma_text_order_trans(sv[a], xv, sv[b - 1]);
            } else {
                assert(w[a] == sv[a - 1] && w[b] == sv[b - 1]);
            }
        }
        assert forall|y: Seq<char>| #[trigger] w.contains(y) <==> (sv.contains(y) || y == xv) by {
            if w.contains(y) {
                let k = choose|k: int| 0 <= k < w.len() && w[k] == y;
                if k < j {
                    assert(sv[k] == y);
                } else if k > j {
                    assert(sv[k - 1] == y);
                }
            }
            if sv.contains(y) {
                let k = choose|k: int| 0 <= k < sv.len() && sv[k] == y;
                if k < j {
                    assert(w[k] == y);
                } else {
                    assert(w[k + 1] == y);
                }
            }
            if y == xv {
                assert(w[j as int] == y);
            }
        }
    }
}

fn add_ids(out: &mut Vec<String>, items: &Vec<JsonValue>, or_name: bool)
    requires
        strictly_sorted(strings_view(old(out)@)),
    ensures
        strictly_sorted(strings_view(final(out)@)),
        forall|y: Seq<char>| #[trigger] strings_view(final(out)@).contains(y)
            <==> (strings_view(old(out)@).contains(y) || ids_from(items_view(items@), or_name).contains(y)),
{
    let ghost iv = items_view(items@);
    let mut i: usize = 0;
    assert(iv.take(0) =~= seq![]);
    while i < items.len()
        invariant
            i <= items.len(),
            iv == items_view(items@),
            strictly_sorted(strings_view(out@)),
            forall|y: Seq<char>| #[trigger] strings_view(out@).contains(y)
                <==> (strings_view(old(out)@).contains(y) || ids_from(iv.take(i as int), or_name).contains(y)),
        decreases items.len() - i,
    {
        let item = &items[i];
        assert(iv[i as int] == item@);
        assert(iv.take(i + 1).drop_last() =~= iv.take(i as int));
        let id = match item.str_field("id") {
            Some(s) => Some(s),
            None => if or_name { item.str_field("name") } else { None },
        };
        match id {
            Some(s) => {
                let ghost sv = s@;
                let ghost before = strings_view(out@);
                insert_sorted(out, s);
                proof {
                    let prev = ids_from(iv.take(i as int), or_name);
                    assert(item_id(item@, or_name) == Some(sv));
                    assert(iv.take(i + 1).last() == item@);
                    assert(ids_from(iv.take(i + 1), or_name) == prev.push(sv));
                    assert forall|y: Seq<char>| prev.push(sv).contains(y) <==> (prev.contains(y) || y == sv) by {
                        if prev.push(sv).contains(y) {
                            let k = choose|k: int| 0 <= k < prev.push(sv).len() && prev.push(sv)[k] == y;
                            if k < prev.len() {
                                assert(prev[k] == y);
                            }
                        }
                        if prev.contains(y) {
                            let k = choose|k: int| 0 <= k < prev.len() && prev[k] == y;
                            assert(prev.push(sv)[k] == y);
                        }
                        if y == sv {
                            assert(prev.push(sv)[prev.len() as int] == y);
                        }
                    }
                    assert forall|y: Seq<char>| #[trigger] strings_view(out@).contains(y)
                        <==> (strings_view(old(out)@).contains(y) || ids_from(iv.take(i + 1), or_name).contains(y)) by {
                        assert(strings_view(out@).contains(y) <==> (before.contains(y) || y == sv));
                        assert(before.contains(y) <==> (strings_view(old(out)@).contains(y) || prev.contains(y)));
                    }
                }
            },
            None => {
                assert(item_id(item@, or_name) is None);
                assert(iv.take(i + 1).last() == item@);
                assert(ids_from(iv.take(i + 1), or_name) == ids_from(iv.take(i as int), or_name));
            },
        }
        i += 1;
    }
    assert(iv.take(items.len() as int) =~= iv);
}

/// The model ids of a listing, sorted and each once.
pub fn parse_model_ids(body: &str) -> (r: Vec<String>)
    ensures
        strictly_sorted(strings_view(r@)),
        forall|y: Seq<char>| #[trigger] strings_view(r@).contains(y) <==> listed_ids(body_json(body@)).contains(y),
{
    let v = match parse_json(body) {
        Some(v) => v,
        None => JsonValue::Null,
    };
    assert(v@ == body_json(body@));
    let mut out: Vec<String> = Vec::new();
    assert(strings_view(out@) =~= Seq::<Seq<char>>::empty());
    let empty: Vec<JsonValue> = Vec::new();
    assert(items_view(empty@) =~= Seq::<Json>::empty());
    let data: &Vec<JsonValue> = match v.get("data") {
        Some(JsonValue::Array(a)) => a,
        _ => &empty,
    };
    let ghost d = match v@.field("data"@).as_array() {
        Some(a) => ids_from(a, false),
        None => seq![],
    };
    assert(ids_from(items_view(data@), false) == d);
    add_ids(&mut out, data, false);
    let ghost mid = strings_view(out@);
    let models: &Vec<JsonValue> = match v.get("models") {
        Some(JsonValue::Array(a)) => a,
        _ => &empty,
    };
    let ghost m = match v@.field("models"@).as_array() {
        Some(a) => ids_from(a, true),
        None => seq![],
    };
    assert(ids_from(items_view(models@), true) == m);
    add_ids(&mut out, models, true);
    proof {
        assert forall|y: Seq<char>| #[trigger] strings_view(out@).contains(y) <==> (d + m).contains(y) by {
            if (d + m).contains(y) {
                let k = choose|k: int| 0 <= k < (d + m).len() && (d + m)[k] == y;
                if k < d.len() {
                    assert(d[k] == y);
                } else {
                    assert(m[k - d.len()] == y);
                }
            }
            if d.contains(y) {
                let k = choose|k: int| 0 <= k < d.len() && d[k] == y;
                assert((d + m)[k] == y);
            }
            if m.contains(y) {
                let k = choose|k: int| 0 <= k < m.len() && m[k] == y;
                assert((d + m)[k + d.len()] == y);
            }
        }
    }
    out
}


// ───────────────────────── the listing cache ─────────────────────────

/// How long a listing stays fresh: five minutes, in milliseconds.
pub const DISCOVERY_TTL_MS: u64 = 300000;

/// A cached listing, stamped with the (monotonic) time it was stored.
pub struct ListingEntry {
    pub key: String,
    pub stamp_ms: u64,
    pub models: Vec<String>,
}

/// The listings discovered lately, by cache key.
pub struct ModelCache {
    pub entries: Vec<ListingEntry>,
}

pub open spec fn listing_map(s: Seq<ListingEntry>) -> Map<Seq<char>, (u64, Seq<Seq<char>>)>
    decreases s.len(),
{
    if s.len() == 0 {
        Map::empty()
    } else {
        listing_map(s.drop_last()).insert(s.last().key@, (s.last().stamp_ms, strings_view(s.last().models@)))
    }
}

impl View for ModelCache {
    type V = Map<Seq<char>, (u64, Seq<Seq<char>>)>;

    open spec fn view(&self) -> Map<Seq<char>, (u64, Seq<Seq<char>>)> {
        listing_map(self.entries@)
    }
}

/// A listing stored at `stamp` is fresh at `now` while less than the TTL has
/// passed (no time passes when the clock reads earlier).
pub open spec fn fresh(stamp: u64, now_ms: u64) -> bool {
    (if now_ms > stamp { now_ms - stamp } else { 0 }) < 300000
}

/// The fresh listing under `key`.
pub open spec fn fresh_listing(m: Map<Seq<char>, (u64, Seq<Seq<char>>)>, key: Seq<char>, now_ms: u64) -> Option<Seq<Seq<char>>> {
    match m.get(key) {
        Some(e) => if fresh(e.0, now_ms) { Some(e.1) } else { None },
        None => None,
    }
}

fn copy_strings(v: &Vec<String>) -> (r: Vec<String>)
    ensures
        strings_view(r@) == strings_view(v@),
{
    let mut out: Vec<String> = Vec::new();
    let mut i: usize = 0;
    while i < v.len()
        invariant
            i <= v.len(),
            strings_view(out@) =~= strings_view(v@).take(i as int),
        decreases v.len() - i,
    {
        let ghost before = out@;
        let c = text::owned(v[i].as_str());
        out.push(c);
        assert(out@ == before.push(c));
        assert(strings_view(out@) =~= strings_view(before).push(c@));
        assert(strings_view(v@).take(i + 1) =~= strings_view(v@).take(i as int).push(v@[i as int]@));
        i += 1;
    }
    assert(strings_view(v@).take(v.len() as int) =~= strings_view(v@));
    out
}

impl ModelCache {
    pub fn new() -> (r: ModelCache)
        ensures
            r@ == Map::<Seq<char>, (u64, Seq<Seq<char>>)>::empty(),
    {
        ModelCache { entries: Vec::new() }
    }

    /// Stores a listing under `key`, replacing the one there.
    pub fn store(&mut self, key: &str, models: Vec<String>, now_ms: u64)
        ensures
            final(self)@ == old(self)@.insert(key@, (now_ms, strings_view(models@))),
    {
        let ghost e = self.entries@;
        self.entries.push(ListingEntry { key: text::owned(key), stamp_ms: now_ms, models });
        assert(self.entries@.drop_last() =~= e);
    }

    /// The listing under `key` when it is still fresh at `now_ms`.
    pub fn lookup(&self, key: &str, now_ms: u64) -> (r: Option<Vec<String>>)
        ensures
            match r {
                Some(v) => fresh_listing(self@, key@, now_ms) == Some(strings_view(v@)),
                None => fresh_listing(self@, key@, now_ms) is None,
            },
    {
        let mut i = self.entries.len();
        assert(self.entries@.take(i as int) =~= self.entries@);
        while i > 0
            invariant
                i <= self.entries@.len(),
                listing_map(self.entries@).get(key@) == listing_map(self.entries@.take(i as int)).get(key@),
            decreases i,
        {
            let ghost t = self.entries@.take(i as int);
            assert(t.drop_last() =~= self.entries@.take(i - 1));
            assert(t.last() == self.entries@[i - 1]);
            if text::str_eq(self.entries[i - 1].key.as_str(), key) {
                let stamp = self.entries[i - 1].stamp_ms;
                let elapsed = if now_ms > stamp { now_ms - stamp } else { 0 };
                if elapsed < DISCOVERY_TTL_MS {
                    return Some(copy_strings(&self.entries[i - 1].models));
                }
                return None;
            }
            i -= 1;
        }
        assert(self.entries@.take(0) =~= Seq::<ListingEntry>::empty());
        None
    }
}

/// A listing just stored is found again for the next five minutes.
pub proof fn law_listing_read_back(m: Map<Seq<char>, (u64, Seq<Seq<char>>)>, key: Seq<char>, models: Seq<Seq<char>>, stored_ms: u64, now_ms: u64)
    requires
        fresh(stored_ms, now_ms),
    ensures
        fresh_listing(m.insert(key, (stored_ms, models)), key, now_ms) == Some(models),
{
}

/// Storing under one key leaves what another key finds unchanged.
pub proof fn law_listing_other_keys(m: Map<Seq<char>, (u64, Seq<Seq<char>>)>, key: Seq<char>, other: Seq<char>, models: Seq<Seq<char>>, stored_ms: u64, now_ms: u64)
    requires
        key != other,
    ensures
        fresh_listing(m.insert(key, (stored_ms, models)), other, now_ms) == fresh_listing(m, other, now_ms),
{
}

} // verus!
