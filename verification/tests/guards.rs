use hermes_desktop::config::CredentialEntry;
use hermes_desktop::json::JsonValue;
use hermes_desktop::settings::{
    config_value_readable, env_readable, get_config_value, get_credential_pool, parse_env, read_auth_store,
    set_config_value, set_credential_pool,
};
use hermes_desktop::skills::skill_head_on_boundary;
use hermes_desktop::yaml::{
    find_top_level_key, find_yaml_path,
    block_children_defined, is_lone_quote, model_config_writable, strip_yaml_quotes, top_level_raw, yaml_path_raw,
};

#[test]
fn lone_quotes_are_recognised() {
    assert!(is_lone_quote("\""));
    assert!(is_lone_quote("  ' "));
    assert!(!is_lone_quote("\"\""));
    assert!(!is_lone_quote("x"));
    assert_eq!(strip_yaml_quotes(" 'v' "), "v");
}

#[test]
fn raw_values_keep_their_quotes() {
    let c = "model: \"gpt\"\nagent:\n  tier: 'fast'\n";
    assert_eq!(top_level_raw(c, "model").unwrap(), "\"gpt\"");
    assert_eq!(yaml_path_raw(c, "agent.tier").unwrap(), "'fast'");
    assert!(yaml_path_raw(c, "agent.missing").is_none());
}

#[test]
fn config_values_with_a_lone_quote_are_unreadable() {
    let c = "model: \"\nagent:\n  tier: fast\n";
    assert!(!config_value_readable(c, "model"));
    assert!(config_value_readable(c, "agent.tier"));
    assert_eq!(get_config_value(c, "agent.tier").unwrap(), "fast");
}

#[test]
fn env_with_a_lone_quote_is_unreadable() {
    assert!(env_readable("A=1\nB=\"two\"\n"));
    assert!(!env_readable("A=1\nB=\"\n"));
    assert_eq!(parse_env("A=1\nB=\"two\"\n").get("B").unwrap(), "two");
}

#[test]
fn block_children_stop_on_a_lone_quote() {
    assert!(block_children_defined("model:\n  provider: x\n", "model"));
    assert!(!block_children_defined("model:\n  provider: '\n", "model"));
    assert!(block_children_defined("other: 1\n", "model"));
    assert!(model_config_writable("model:\n  provider: x\n", "openai", "gpt", "http://h"));
    assert!(!model_config_writable("model:\n  default: \"\n", "openai", "gpt", ""));
}

#[test]
fn skill_heads_must_end_on_a_character() {
    assert!(skill_head_on_boundary("short"));
    let ascii = "a".repeat(5000);
    assert!(skill_head_on_boundary(&ascii));
    let mut split = "a".repeat(3999);
    split.push_str(&"\u{e9}".repeat(10));
    assert!(!skill_head_on_boundary(&split));
}

#[test]
fn a_written_setting_is_read_back() {
    let c = "model: gpt\n# note\nother: 1   # keep\nlast: x";
    let replaced = set_config_value(c, "other", "two words").unwrap();
    assert_eq!(replaced, "model: gpt\n# note\nother: \"two words\"   # keep\nlast: x");
    assert_eq!(get_config_value(&replaced, "other").unwrap(), "two words");
    let added = set_config_value(c, "fresh", "v").unwrap();
    assert_eq!(added, "model: gpt\n# note\nother: 1   # keep\nlast: x\nfresh: \"v\"\n");
    assert_eq!(get_config_value(&added, "fresh").unwrap(), "v");
    assert_eq!(get_config_value(&added, "other").unwrap(), "1");
}

#[test]
fn a_written_nested_setting_is_read_back() {
    let c = "agent:\n  # tiers\n  tier: fast   # comment\n  other: 1\nmodel: m\n";
    let written = set_config_value(c, "agent.tier", "slow one").unwrap();
    assert_eq!(written, "agent:\n  # tiers\n  tier: \"slow one\"   # comment\n  other: 1\nmodel: m\n");
    assert_eq!(get_config_value(&written, "agent.tier").unwrap(), "slow one");
    assert_eq!(get_config_value(&written, "agent.other").unwrap(), "1");
    // a nested path that is not there is left out
    let missing = set_config_value(c, "agent.absent", "x").unwrap();
    assert_eq!(missing, c);
    assert_eq!(get_config_value(&missing, "agent.absent"), None);
}

#[test]
fn a_saved_credential_pool_reads_back() {
    let text = r#"{"credential_pool":{"openai":[{"key":"k1","label":null}]},"other":{"x":1}}"#;
    let store = read_auth_store(Some(text));
    let entries = vec![CredentialEntry { key: Some("k2".to_string()), label: Some("main".to_string()) }];
    let saved = set_credential_pool(store, "anthropic", &entries);
    let pool = get_credential_pool(&saved);
    match pool.get("anthropic").unwrap() {
        JsonValue::Array(items) => {
            assert_eq!(items.len(), 1);
            assert_eq!(items[0].str_field("key"), Some("k2".to_string()));
            assert_eq!(items[0].str_field("label"), Some("main".to_string()));
        }
        _ => panic!("the saved pool is not a list"),
    }
    match pool.get("openai").unwrap() {
        JsonValue::Array(items) => assert_eq!(items[0].str_field("key"), Some("k1".to_string())),
        _ => panic!("the other pool is not a list"),
    }
    assert_eq!(saved.get("other").unwrap().u64_field("x"), Some(1));
    // a missing or unreadable file reads as an empty store
    assert!(matches!(read_auth_store(None), JsonValue::Object(m) if m.is_empty()));
    assert!(matches!(read_auth_store(Some("not json")), JsonValue::Object(m) if m.is_empty()));
}

#[test]
fn hits_give_character_and_byte_bounds() {
    let c = "név: é\nagent:\n  tier: fast\n";
    let h = find_yaml_path(c, "agent.tier").unwrap();
    assert_eq!(h.value, "fast");
    assert_eq!((h.value_start, h.value_end), (22, 26));
    assert_eq!((h.byte_start, h.byte_end), (24, 28));
    assert_eq!(&c[h.byte_start as usize..h.byte_end as usize], "fast");
    let t = find_top_level_key(c, "név").unwrap();
    assert_eq!(t.value, "é");
    assert_eq!((t.value_start, t.value_end), (5, 6));
    assert_eq!((t.byte_start, t.byte_end), (6, 8));
}

#[test]
fn a_saved_git_path_is_the_one_resolved() {
    let saved = hermes_desktop::desktop::with_setting(None, "gitPath", JsonValue::Str("D:/Git/bin/git.exe".into()));
    let text = match &saved {
        JsonValue::Object(m) if m.len() == 1 => r#"{"gitPath":"D:/Git/bin/git.exe"}"#,
        _ => panic!("unexpected settings"),
    };
    let custom = hermes_desktop::desktop::read_setting(Some(text), "gitPath");
    assert_eq!(custom, "D:/Git/bin/git.exe");
    let probe = |_p: String| true;
    assert_eq!(hermes_desktop::paths::resolve_git_path(&custom, "/home/u/.hermes", &probe), "D:/Git/bin/git.exe");
    let none = |_p: String| false;
    assert_eq!(hermes_desktop::paths::resolve_git_path("", "/home/u/.hermes", &none), "git");
}

#[test]
fn a_new_config_with_a_platform_off_reads_it_as_off() {
    let c = hermes_desktop::platforms::set_platform_enabled(None, "home_assistant", false).unwrap();
    assert_eq!(c, "homeassistant:\n  enabled: false\n");
    assert_eq!(hermes_desktop::platforms::read_platform_override(&c, "homeassistant"), Some(false));
    let appended = hermes_desktop::platforms::set_platform_enabled(Some("model: m\n"), "telegram", false).unwrap();
    assert_eq!(appended, "model: m\ntelegram:\n  enabled: false\n");
    assert_eq!(hermes_desktop::platforms::read_platform_override(&appended, "telegram"), Some(false));
    let inserted = hermes_desktop::platforms::set_platform_enabled(Some("slack:\n  channel: x\n"), "slack", false).unwrap();
    assert_eq!(inserted, "slack:\n  enabled: false\n  channel: x\n");
    assert_eq!(hermes_desktop::platforms::read_platform_override(&inserted, "slack"), Some(false));
    let flow = hermes_desktop::platforms::set_platform_enabled(Some("discord: {}\nmodel: m\n"), "discord", false).unwrap();
    assert_eq!(flow, "discord:\n  enabled: false\nmodel: m\n");
    assert_eq!(hermes_desktop::platforms::read_platform_override(&flow, "discord"), Some(false));
    let replaced = hermes_desktop::platforms::set_platform_enabled(Some("matrix:\n  url: u\n  enabled: true\n"), "matrix", false).unwrap();
    assert_eq!(replaced, "matrix:\n  url: u\n  enabled: false\n");
    assert_eq!(hermes_desktop::platforms::read_platform_override(&replaced, "matrix"), Some(false));
    // a last line `signal:` without a line break: the added block follows an empty one, which is read
    let missed = hermes_desktop::platforms::set_platform_enabled(Some("signal:"), "signal", false).unwrap();
    assert_eq!(missed, "signal:\nsignal:\n  enabled: false\n");
    assert_eq!(hermes_desktop::platforms::read_platform_override(&missed, "signal"), None);
}

#[test]
fn sse_blocks_rejoin_to_the_buffer() {
    let (blocks, rest) = hermes_desktop::sse::split_sse_blocks("data: a\n\nevent: x\ndata: b\n\ndata: c");
    let mut all = blocks.clone();
    all.push(rest);
    assert_eq!(all.join("\n\n"), "data: a\n\nevent: x\ndata: b\n\ndata: c");
    let (blocks, rest) = hermes_desktop::sse::split_sse_blocks("data: a\n\ndata: b\n\n");
    assert_eq!(rest, "");
    assert_eq!(format!("{}\n\n", blocks.join("\n\n")), "data: a\n\ndata: b\n\n");
}
