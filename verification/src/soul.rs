//! The agent's personality file: its default text and the presets that can
//! replace it.
use vstd::prelude::*;
use crate::paths::{join2, path_join};
use crate::skills::{keyed_value, keyed_value_exec};
use crate::text::{chars_of, string_of};
use crate::text;

verus! {

/// The personality a profile starts with.
pub const DEFAULT_SOUL: &'static str = "You are Hermes, a helpful AI assistant focused on helping the user achieve their goals. You have access to various tools and capabilities.

## Core Principles
1. Be helpful, honest, and harmless
2. Use available tools when appropriate
3. Ask clarifying questions when needed
4. Admit when you don't know something
5. Think step by step for complex problems

## Tools
You have access to web search, file operations, code execution, and more through your tool system. Use them when they would help the user.
";

/// What reading the personality gives: the file's text when there is one,
/// else the default.
pub fn soul_text(file: Option<String>) -> (r: String)
    ensures
        r@ == match file {
            Some(f) => f@,
            None => DEFAULT_SOUL@,
        },
{
    match file {
        Some(f) => f,
        None => text::owned(DEFAULT_SOUL),
    }
}

/// The description a personality preset declares: the value of its first
/// line that starts with `description:`, without quotes; empty when none.
pub fn personality_description(content: &str) -> (r: String)
    ensures
        r@ == keyed_value(content@, "description:"@),
{
    let c = chars_of(content);
    let d = keyed_value_exec(&c, chars_of("description:"));
    string_of(d.as_slice())
}

/// The file of a personality preset.
pub fn personality_path(hermes_home: &str, name: &str) -> (r: String)
    ensures
        r@ == path_join(path_join(hermes_home@, "personalities"@), name@ + ".yaml"@),
{
    let file = text::concat2(name, ".yaml");
    join2(hermes_home, "personalities", file.as_str())
}

} // verus!
