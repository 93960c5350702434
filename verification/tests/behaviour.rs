use hermes_desktop::chat::{build_auth_headers, build_user_content, normalise_remote_url, strip_ansi, ChatState};
use hermes_desktop::config::{ConnectionConfig, ModelConfig, SshConfig};
use hermes_desktop::json::{get_json_path, parse_json, set_json_path, JsonValue};
use hermes_desktop::layout::staging_dir;
use hermes_desktop::memory::{parse_memory_entries, MEMORY_CHAR_LIMIT, USER_PROFILE_CHAR_LIMIT};
use hermes_desktop::paths::{resolve_hermes_home, resolve_profile_home};
use hermes_desktop::profiles::active_profile_name;
use hermes_desktop::providers::{expected_env_key, provider_does_not_need_api_key, providers_without_api_keys};
use hermes_desktop::security::{is_allowed_app_navigation, is_allowed_external_url, is_allowed_webview_url};
use hermes_desktop::sessions::decode_content;
use hermes_desktop::settings::{EnvKeyRe, TtlCache};
use hermes_desktop::skills::parse_skill_frontmatter;
use hermes_desktop::soul::DEFAULT_SOUL;
use hermes_desktop::sse::{parse_sse_block, process_custom_event, process_sse_data, split_sse_blocks};
use hermes_desktop::yaml::{find_top_level_key, find_yaml_path, read_top_level_block_children, strip_yaml_quotes};

fn home() -> String {
    resolve_hermes_home(None, Some("/home/tester"))
}

#[test]
fn test_staging_dir_resolution() {
    let d = staging_dir(&home(), "sess-1");
    assert!(d.contains("staging"));
    assert!(d.contains("sess-1"));
}

#[test]
fn test_strip_yaml_quotes() {
    assert_eq!(strip_yaml_quotes("\"hello\""), "hello");
    assert_eq!(strip_yaml_quotes("'world'"), "world");
    assert_eq!(strip_yaml_quotes("plain"), "plain");
}

#[test]
fn test_find_top_level_key() {
    let content = "model: gpt-4\nprovider: openai\n";
    let hit = find_top_level_key(content, "model").unwrap();
    assert_eq!(hit.value, "gpt-4");
}

#[test]
fn test_find_top_level_key_with_quotes() {
    let content = "name: \"My Profile\"\n";
    let hit = find_top_level_key(content, "name").unwrap();
    assert_eq!(hit.value, "My Profile");
}

#[test]
fn test_find_yaml_path_nested() {
    let content = "agent:\n  service_tier: premium\n  name: test\n";
    let hit = find_yaml_path(content, "agent.service_tier").unwrap();
    assert_eq!(hit.value, "premium");
}

#[test]
fn test_find_yaml_path_deep() {
    let content = "memory:\n  provider: honcho\n  settings:\n    ttl: 3600\n";
    let hit = find_yaml_path(content, "memory.settings.ttl").unwrap();
    assert_eq!(hit.value, "3600");
}

#[test]
fn test_find_yaml_path_missing() {
    let content = "model: gpt-4\n";
    assert!(find_yaml_path(content, "model.provider").is_none());
}

#[test]
fn test_read_top_level_block_children() {
    let content = "model:\n  provider: openai\n  default: gpt-4\n  base_url: https://api.openai.com\n";
    let children = read_top_level_block_children(content, "model");
    assert_eq!(children.get("provider").unwrap(), "openai");
    assert_eq!(children.get("default").unwrap(), "gpt-4");
    assert_eq!(children.get("base_url").unwrap(), "https://api.openai.com");
}

#[test]
fn test_env_key_validation() {
    assert!(EnvKeyRe::test("OPENAI_API_KEY"));
    assert!(EnvKeyRe::test("MY_VAR2"));
    assert!(!EnvKeyRe::test("2INVALID"));
    assert!(!EnvKeyRe::test(""));
}

#[test]
fn test_cache_set_and_get() {
    let mut cache = TtlCache::new();
    cache.cache_set("test_key", JsonValue::Str("test_value".to_string()), 1000);
    let val = cache.cache_get("test_key", 1000);
    assert_eq!(val.unwrap().as_string().unwrap(), "test_value");
    cache.cache_invalidate("test_");
}

#[test]
fn test_cache_invalidate() {
    let mut cache = TtlCache::new();
    cache.cache_set("prefix:key1", parse_json("1").unwrap(), 1000);
    cache.cache_set("other:key2", parse_json("2").unwrap(), 1000);
    cache.cache_invalidate("prefix:");
    assert!(cache.cache_get("prefix:key1", 1000).is_none());
    assert!(cache.cache_get("other:key2", 1000).is_some());
    cache.cache_invalidate("other:");
}

#[test]
fn test_model_config_default() {
    let cfg = ModelConfig::default();
    assert_eq!(cfg.provider, "");
}

#[test]
fn test_ssh_config_default() {
    let cfg = SshConfig::default();
    assert_eq!(cfg.port, 22);
}

#[test]
fn test_connection_config_default() {
    let cfg = ConnectionConfig::default();
    assert_eq!(cfg.mode, "local");
}

#[test]
fn test_normalise_remote_url() {
    assert_eq!(normalise_remote_url("http://example.com"), "http://example.com");
    assert_eq!(normalise_remote_url("http://example.com/"), "http://example.com");
    assert_eq!(normalise_remote_url("http://example.com/v1"), "http://example.com");
    assert_eq!(normalise_remote_url("http://example.com/v1/"), "http://example.com");
    assert_eq!(normalise_remote_url("  http://host/v1  "), "http://host");
}

#[test]
fn test_build_user_content_plain() {
    let result = build_user_content("hello", &[]);
    assert_eq!(result.as_string().unwrap(), "hello");
}

#[test]
fn test_build_user_content_empty_text_with_image() {
    let atts = vec![parse_json(r#"{"kind":"image","name":"photo.png","dataUrl":"data:image/png;base64,abc"}"#).unwrap()];
    let result = build_user_content("", &atts);
    match result {
        JsonValue::Array(arr) => {
            assert_eq!(arr.len(), 1);
            assert_eq!(arr[0].get("type").unwrap().as_string().unwrap(), "image_url");
        }
        _ => panic!("expected an array"),
    }
}

#[test]
fn test_build_user_content_path_refs() {
    let atts = vec![parse_json(r#"{"kind":"path-ref","name":"doc.pdf","path":"C:/staging/doc.pdf"}"#).unwrap()];
    let result = build_user_content("summarize this", &atts);
    let s = result.as_string().unwrap();
    assert!(s.contains("Attached file: C:/staging/doc.pdf"));
    assert!(s.contains("summarize this"));
}

#[test]
fn test_headers_auth_local() {
    // Without a valid connection config this returns empty headers plus Content-Type
    let chat_state = ChatState::default();
    let headers = build_auth_headers(None, &chat_state, "");
    assert!(headers.contains_key("Content-Type"));
    assert!(!headers.contains_key("Authorization"));
    // with the default (local) settings and no key, the same
    let conn = ConnectionConfig::default();
    let local = build_auth_headers(Some(&conn), &chat_state, "");
    assert!(local.contains_key("Content-Type"));
    assert!(!local.contains_key("Authorization"));
}

#[test]
fn test_strip_ansi() {
    assert_eq!(strip_ansi("\x1b[32mgreen\x1b[0m"), "green");
    assert_eq!(strip_ansi("normal text"), "normal text");
}

#[test]
fn test_resolve_hermes_home() {
    let h = home();
    assert!(!h.is_empty());
}

#[test]
fn test_resolve_profile_home_default() {
    let path = resolve_profile_home(&home(), None);
    assert_eq!(path, home());
}

#[test]
fn test_resolve_profile_home_named() {
    let path = resolve_profile_home(&home(), Some("test-profile"));
    assert!(path.contains("test-profile"));
}

#[test]
fn test_parse_empty() {
    assert!(parse_memory_entries("").is_empty());
}

#[test]
fn test_parse_entries() {
    let e = parse_memory_entries("entry1\n§\nentry2");
    assert_eq!(e.len(), 2);
    assert_eq!(e[0].content, "entry1");
}

#[test]
fn test_char_limits() {
    assert_eq!(MEMORY_CHAR_LIMIT, 2200);
    assert_eq!(USER_PROFILE_CHAR_LIMIT, 1375);
}

#[test]
fn test_active_profile_default() {
    assert!(!active_profile_name(None).is_empty());
}

#[test]
fn test_providers_without_keys() {
    let s = providers_without_api_keys();
    assert!(s.contains("ollama"));
    assert!(s.contains("custom"));
}

#[test]
fn test_provider_does_not_need_key() {
    assert!(provider_does_not_need_api_key("ollama"));
    assert!(!provider_does_not_need_api_key("openai"));
}

#[test]
fn test_expected_env_key() {
    assert_eq!(expected_env_key("openai", "").unwrap(), "OPENAI_API_KEY");
}

#[test]
fn test_allowed_external_urls() {
    assert!(is_allowed_external_url("https://example.com"));
    assert!(is_allowed_external_url("http://example.com"));
    assert!(is_allowed_external_url("mailto:test@example.com"));
    assert!(!is_allowed_external_url("file:///etc/passwd"));
    assert!(!is_allowed_external_url("javascript:alert(1)"));
    assert!(!is_allowed_external_url("ftp://example.com"));
}

#[test]
fn test_allowed_webview_url() {
    assert!(is_allowed_webview_url("http://localhost:8642"));
    assert!(is_allowed_webview_url("http://127.0.0.1:8080"));
    assert!(!is_allowed_webview_url("http://evil.com:8080"));
    assert!(!is_allowed_webview_url("http://localhost:80"));
}

#[test]
fn test_allowed_app_navigation() {
    assert!(is_allowed_app_navigation("file:///some/path"));
    assert!(is_allowed_app_navigation("http://localhost:1420"));
    assert!(!is_allowed_app_navigation("https://evil.com"));
}

#[test]
fn test_decode_plain() {
    assert_eq!(decode_content("hello"), "hello");
}

#[test]
fn test_decode_json_prefixed() {
    assert_eq!(decode_content("\0json:{\"role\":\"user\",\"content\":[{\"type\":\"text\",\"text\":\"hi\"}]}"), "hi");
    assert!(decode_content("\0json:[{\"type\":\"text\",\"text\":\"hi there\"}]").contains("hi there"));
}

#[test]
fn test_parse_frontmatter() {
    let (n, d) = parse_skill_frontmatter("---\nname: test-skill\ndescription: A test skill\n---\n# Body");
    assert_eq!(n, "test-skill");
    assert_eq!(d, "A test skill");
}

#[test]
fn test_default_soul_not_empty() {
    assert!(!DEFAULT_SOUL.is_empty());
    assert!(DEFAULT_SOUL.contains("Hermes"));
}

#[test]
fn test_split_blocks() {
    let (blocks, remaining) = split_sse_blocks("data: hello\n\n");
    assert_eq!(blocks.len(), 1);
    assert!(remaining.is_empty());
}

#[test]
fn test_split_blocks_partial() {
    let (blocks, remaining) = split_sse_blocks("data: hello\n\ndata: wor");
    assert_eq!(blocks.len(), 1);
    assert_eq!(remaining, "data: wor");
}

#[test]
fn test_parse_sse_block() {
    let (event, data) = parse_sse_block("event: hermes.tool.progress\ndata: {\"label\":\"search\"}");
    assert_eq!(event, "hermes.tool.progress");
    assert_eq!(data, "{\"label\":\"search\"}");
}

#[test]
fn test_process_sse_data_done() {
    let result = process_sse_data("[DONE]", false);
    assert!(result.is_done);
}

#[test]
fn test_process_sse_data_content() {
    let result = process_sse_data(r#"{"choices":[{"delta":{"content":"Hello"}}]}"#, false);
    assert_eq!(result.content_delta.unwrap(), "Hello");
}

#[test]
fn test_process_sse_data_usage() {
    let result = process_sse_data(r#"{"choices":[],"usage":{"prompt_tokens":10,"completion_tokens":5,"total_tokens":15}}"#, false);
    assert_eq!(result.usage.unwrap().total_tokens, 15);
}

#[test]
fn test_process_custom_event() {
    let result = process_custom_event("hermes.tool.progress", r#"{"label":"search_web","emoji":"🔍"}"#);
    assert_eq!(result.unwrap(), "🔍 search_web");
}

#[test]
fn test_get_simple_path() {
    let json = parse_json(r#"{"memory":{"provider":"memdir"}}"#).unwrap();
    let hit = get_json_path(&json, "memory.provider").unwrap();
    assert_eq!(hit.as_string().unwrap(), "memdir");
}

#[test]
fn test_get_nonexistent_path() {
    let json = parse_json(r#"{"a":1}"#).unwrap();
    assert!(get_json_path(&json, "b.c").is_none());
}

#[test]
fn test_set_path() {
    let mut json = parse_json("{}").unwrap();
    set_json_path(&mut json, "model.default", JsonValue::Str("sonnet-4".into()));
    let v = json.get("model").unwrap().get("default").unwrap();
    assert_eq!(v.as_string().unwrap(), "sonnet-4");
}
