//! Model providers: the API key variable each one reads, the providers that
//! need no key, and the canonical base URLs for model discovery.
use vstd::prelude::*;
use crate::json::{items_view, Json, JsonValue};
use crate::text::{chars_of, contains_sub, lowercase, string_of, to_lowercase, trim};
use crate::text;

verus! {

/// Each provider with the environment variable that holds its API key.
pub open spec fn provider_env_keys() -> Seq<(Seq<char>, Seq<char>)> {
    seq![
        ("openrouter"@, "OPENROUTER_API_KEY"@),
        ("anthropic"@, "ANTHROPIC_API_KEY"@),
        ("openai"@, "OPENAI_API_KEY"@),
        ("google"@, "GOOGLE_API_KEY"@),
        ("xai"@, "XAI_API_KEY"@),
        ("groq"@, "GROQ_API_KEY"@),
        ("deepseek"@, "DEEPSEEK_API_KEY"@),
        ("together"@, "TOGETHER_API_KEY"@),
        ("fireworks"@, "FIREWORKS_API_KEY"@),
        ("cerebras"@, "CEREBRAS_API_KEY"@),
        ("mistral"@, "MISTRAL_API_KEY"@),
        ("perplexity"@, "PERPLEXITY_API_KEY"@),
        ("huggingface"@, "HF_TOKEN"@),
        ("hf"@, "HF_TOKEN"@),
        ("qwen"@, "QWEN_API_KEY"@),
        ("minimax"@, "MINIMAX_API_KEY"@),
        ("glm"@, "GLM_API_KEY"@),
        ("kimi"@, "KIMI_API_KEY"@),
        ("nvidia"@, "NVIDIA_API_KEY"@),
    ]
}

fn provider_env_keys_exec() -> (r: Vec<(&'static str, &'static str)>)
    ensures
        r@.len() == provider_env_keys().len(),
        forall|i: int| 0 <= i < r@.len() ==> #[trigger] r@[i].0@ == provider_env_keys()[i].0 && r@[i].1@
            == provider_env_keys()[i].1,
{
    let r = vec![
        ("openrouter", "OPENROUTER_API_KEY"),
        ("anthropic", "ANTHROPIC_API_KEY"),
        ("openai", "OPENAI_API_KEY"),
        ("google", "GOOGLE_API_KEY"),
        ("xai", "XAI_API_KEY"),
        ("groq", "GROQ_API_KEY"),
        ("deepseek", "DEEPSEEK_API_KEY"),
        ("together", "TOGETHER_API_KEY"),
        ("fireworks", "FIREWORKS_API_KEY"),
        ("cerebras", "CEREBRAS_API_KEY"),
        ("mistral", "MISTRAL_API_KEY"),
        ("perplexity", "PERPLEXITY_API_KEY"),
        ("huggingface", "HF_TOKEN"),
        ("hf", "HF_TOKEN"),
        ("qwen", "QWEN_API_KEY"),
        ("minimax", "MINIMAX_API_KEY"),
        ("glm", "GLM_API_KEY"),
        ("kimi", "KIMI_API_KEY"),
        ("nvidia", "NVIDIA_API_KEY"),
    ];
    r
}

/// The providers that run without an API key.
pub open spec fn keyless_providers() -> Seq<Seq<char>> {
    seq!["custom"@, "lmstudio"@, "ollama"@, "vllm"@, "llamacpp"@, "openai-codex"@]
}

/// A set of provider names.
pub struct ProviderSet {
    pub names: Vec<String>,
}

impl View for ProviderSet {
    type V = Set<Seq<char>>;

    open spec fn view(&self) -> Set<Seq<char>> {
        self.names@.map_values(|s: String| s@).to_set()
    }
}

impl ProviderSet {
    /// Whether `name` is in the set.
    pub fn contains(&self, name: &str) -> (b: bool)
        ensures
            b == self@.contains(name@),
    {
        let ghost ns = self.names@.map_values(|s: String| s@);
        let mut i: usize = 0;
        while i < self.names.len()
            invariant
                i <= self.names.len(),
                ns == self.names@.map_values(|s: String| s@),
                forall|k: int| 0 <= k < i ==> #[trigger] ns[k] != name@,
            decreases self.names.len() - i,
        {
            if text::str_eq(self.names[i].as_str(), name) {
                assert(ns[i as int] == name@);
                return true;
            }
            i += 1;
        }
        assert(!ns.contains(name@));
        false
    }
}

/// The providers that need no API key.
pub fn providers_without_api_keys() -> (r: ProviderSet)
    ensures
        r@ == keyless_providers().to_set(),
{
    let mut names: Vec<String> = Vec::new();
    names.push(String::from_str("custom"));
    names.push(String::from_str("lmstudio"));
    names.push(String::from_str("ollama"));
    names.push(String::from_str("vllm"));
    names.push(String::from_str("llamacpp"));
    names.push(String::from_str("openai-codex"));
    assert(names@.map_values(|s: String| s@) =~= keyless_providers());
    ProviderSet { names }
}

/// Whether a provider (compared in lowercase) needs no API key.
pub fn provider_does_not_need_api_key(provider: &str) -> (b: bool)
    ensures
        b == keyless_providers().contains(lowercase(provider@)),
{
    let low = to_lowercase(provider);
    let set = providers_without_api_keys();
    set.contains(low.as_str())
}

/// The first entry of the table for provider `p`.
pub open spec fn key_by_name(t: Seq<(Seq<char>, Seq<char>)>, p: Seq<char>) -> Option<Seq<char>>
    decreases t.len(),
{
    if t.len() == 0 {
        None
    } else if t[0].0 == p {
        Some(t[0].1)
    } else {
        key_by_name(t.drop_first(), p)
    }
}

/// The first entry, other than provider `p`, whose name occurs in the URL.
pub open spec fn key_by_url(t: Seq<(Seq<char>, Seq<char>)>, p: Seq<char>, url: Seq<char>) -> Option<Seq<char>>
    decreases t.len(),
{
    if t.len() == 0 {
        None
    } else if t[0].0 != p && contains_sub(url, t[0].0) {
        Some(t[0].1)
    } else {
        key_by_url(t.drop_first(), p, url)
    }
}

/// The API key variable for a provider: by its name (trimmed, in
/// lowercase), else by a known provider named in its base URL (in lowercase).
pub open spec fn env_key_for(provider: Seq<char>, base_url: Seq<char>) -> Option<Seq<char>> {
    let p = lowercase(trim(provider));
    match key_by_name(provider_env_keys(), p) {
        Some(k) => Some(k),
        None => key_by_url(provider_env_keys(), p, lowercase(base_url)),
    }
}

/// The environment variable that holds the API key a provider needs.
#[verifier::spinoff_prover]
pub fn expected_env_key(provider: &str, base_url: &str) -> (r: Option<String>)
    ensures
        crate::settings::opt_string_view(r) == env_key_for(provider@, base_url@),
{
    let t = text::trim_str(provider);
    let lower = to_lowercase(t.as_str());
    let table = provider_env_keys_exec();
    let ghost tv = provider_env_keys();
    let mut i: usize = 0;
    assert(tv.skip(0) =~= tv);
    while i < table.len()
        invariant
            i <= table.len(),
            tv == provider_env_keys(),
            table@.len() == tv.len(),
            forall|k: int| 0 <= k < table@.len() ==> #[trigger] table@[k].0@ == tv[k].0 && table@[k].1@
                == tv[k].1,
            key_by_name(tv, lower@) == key_by_name(tv.skip(i as int), lower@),
            lower@ == lowercase(trim(provider@)),
        decreases table.len() - i,
    {
        assert(tv.skip(i as int).drop_first() =~= tv.skip(i + 1));
        assert(tv.skip(i as int)[0] == tv[i as int]);
        let (k, v) = table[i];
        if text::str_eq(k, lower.as_str()) {
            return Some(text::owned(v));
        }
        i += 1;
    }
    let url = to_lowercase(base_url);
    let mut j: usize = 0;
    assert(tv.skip(0) =~= tv);
    while j < table.len()
        invariant
            j <= table.len(),
            tv == provider_env_keys(),
            table@.len() == tv.len(),
            forall|k: int| 0 <= k < table@.len() ==> #[trigger] table@[k].0@ == tv[k].0 && table@[k].1@
                == tv[k].1,
            key_by_name(tv, lower@) is None,
            key_by_url(tv, lower@, url@) == key_by_url(tv.skip(j as int), lower@, url@),
            lower@ == lowercase(trim(provider@)),
            url@ == lowercase(base_url@),
        decreases table.len() - j,
    {
        assert(tv.skip(j as int).drop_first() =~= tv.skip(j + 1));
        assert(tv.skip(j as int)[0] == tv[j as int]);
        let (k, v) = table[j];
        if !text::str_eq(k, lower.as_str()) && text::str_contains(url.as_str(), k) {
            return Some(text::owned(v));
        }
        j += 1;
    }
    None
}

} // verus!
