use hermes_desktop::attachments::{safe_file_name, stage_attachment};
use hermes_desktop::claw3d::{claw3d_logs, dev_command, find_npm, saved_port, saved_ws_url, start_all_result, start_step, StartStep};
use hermes_desktop::cron::{create_job_args, cron_result, jobs_from_text, normalize_job, remote_jobs_url};
use hermes_desktop::desktop::{check_locale, count_memory_entries, get_locale, get_tool_paths, local_plugin, read_setting, safe_context_name, with_setting};
use hermes_desktop::discovery::{cache_key, canonical_base_url, discovery_request, discovery_target, parse_model_ids, DiscoveryTarget, ModelCache};
use hermes_desktop::gateway::{api_server_config, gateway_env, gateway_status, stop_gateway, GatewayState, InitFlags};
use hermes_desktop::installer::{backup_result, env_has_usable_value, install_wrapper, log_tail, memory_providers, ps_quote, version_text};
use hermes_desktop::json::{parse_json, JsonValue};
use hermes_desktop::kanban::{create_task_args, list_boards_args, ok_bool, ok_json};
use hermes_desktop::layout::{hermes_python, memory_path};
use hermes_desktop::mcp::{add_mcp_server, remove_mcp_server, update_mcp_server, McpServer};
use hermes_desktop::models::{add_model, remove_model, update_model, SavedModel};
use hermes_desktop::profiles::{active_profile_name, create_profile_args, profile_from_json, read_profile_metadata};
use hermes_desktop::runner::cli_outcome;
use hermes_desktop::sandbox::{get_terminal_backend, set_terminal_backend};
use hermes_desktop::sessions::{list_cached_sessions, update_session_title, CachedSession};
use hermes_desktop::skills::{hub_search_url, hub_skills, skill_install_args, skill_record, sort_skills, urlencoding, InstalledSkill};
use hermes_desktop::soul::personality_description;
use hermes_desktop::toolsets::{get_toolsets, parse_enabled_toolsets, set_toolset_enabled};
use hermes_desktop::tunnel::{connection_result, find_free_port};
use hermes_desktop::config::SshConfig;

fn strs(v: &[String]) -> Vec<&str> {
    v.iter().map(|s| s.as_str()).collect()
}

#[test]
fn frontmatter_without_block_uses_heading_and_first_line() {
    let (n, d) = hermes_desktop::skills::parse_skill_frontmatter("# My Skill\n\nDoes things well.\n");
    assert_eq!(n, "My Skill");
    assert_eq!(d, "Does things well.");
}

#[test]
fn frontmatter_values_lose_quotes() {
    let (n, d) = hermes_desktop::skills::parse_skill_frontmatter("---\nname: \"quoted\"\ndescription: 'single'\n---\n");
    assert_eq!(n, "quoted");
    assert_eq!(d, "single");
}

#[test]
fn skill_record_falls_back_to_directory_name() {
    let k = skill_record("dir-name", "cat", "no front matter here", "/p");
    assert_eq!(k.name, "dir-name");
    assert_eq!(k.description, "no front matter here");
    assert_eq!(k.category, "cat");
}

fn skill(name: &str, cat: &str) -> InstalledSkill {
    InstalledSkill { name: name.into(), category: cat.into(), description: String::new(), path: String::new() }
}

#[test]
fn skills_sort_by_category_then_name() {
    let v = sort_skills(vec![skill("b", "y"), skill("a", "y"), skill("z", "x")]);
    let names: Vec<&str> = v.iter().map(|k| k.name.as_str()).collect();
    assert_eq!(names, vec!["z", "a", "b"]);
}

#[test]
fn install_args_add_profile_except_default() {
    assert_eq!(strs(&skill_install_args("web", Some("work"))), vec!["skills", "install", "web", "--yes", "-p", "work"]);
    assert_eq!(strs(&skill_install_args("web", Some("default"))), vec!["skills", "install", "web", "--yes"]);
}

#[test]
fn urlencoding_encodes_bytes() {
    assert_eq!(urlencoding("a b&é"), "a+b%26%C3%A9");
    assert_eq!(urlencoding("A-z_0.~"), "A-z_0.~");
    assert_eq!(hub_search_url("x y"), "https://agentskills.io/api/skills?q=x+y");
}

#[test]
fn hub_results_from_wrapped_or_bare_arrays() {
    let wrapped = parse_json(r#"{"skills":[{"name":"a","downloads":4294967297}]}"#).unwrap();
    let v = hub_skills(&wrapped, true);
    assert_eq!(v.len(), 1);
    assert_eq!(v[0].name, "a");
    assert_eq!(v[0].downloads, 1);
    let bare = parse_json(r#"[{"name":"b"}]"#).unwrap();
    assert_eq!(hub_skills(&bare, false).len(), 1);
    assert_eq!(hub_skills(&wrapped, false).len(), 0);
}

#[test]
fn personality_description_reads_line() {
    assert_eq!(personality_description("name: x\ndescription: \"Calm\"\n"), "Calm");
    assert_eq!(personality_description("nothing"), "");
}

#[test]
fn staging_decodes_and_names_file() {
    let (a, bytes) = stage_attachment("/s", "id1", "a/b:c.txt", None, None, Some("aGk=")).unwrap();
    assert_eq!(bytes, b"hi".to_vec());
    assert_eq!(a.size, 2);
    assert_eq!(a.filename, "a_b_c.txt");
    assert_eq!(a.kind, "file");
    assert_eq!(a.mime, "application/octet-stream");
    assert_eq!(a.staged_path, "/s/a_b_c.txt");
    match stage_attachment("/s", "id1", "f", None, None, Some("!!")) {
        Err(e) => assert!(e.starts_with("Base64 decode failed: ")),
        Ok(_) => panic!("bad base64 accepted"),
    }
    assert_eq!(safe_file_name("x|y"), "x_y");
}

#[test]
fn discovery_targets() {
    match discovery_target("Nous", None) {
        DiscoveryTarget::Answer(a) => assert_eq!(a.status, "unsupported"),
        _ => panic!(),
    }
    match discovery_target("custom", None) {
        DiscoveryTarget::Answer(a) => assert_eq!(a.status, "unknown-host"),
        _ => panic!(),
    }
    match discovery_target(" OpenAI ", None) {
        DiscoveryTarget::Ask { provider, base } => {
            assert_eq!(provider, "openai");
            assert_eq!(base, "https://api.openai.com/v1");
        }
        _ => panic!(),
    }
    match discovery_target("custom", Some("http://h/v1//")) {
        DiscoveryTarget::Ask { base, .. } => assert_eq!(base, "http://h/v1"),
        _ => panic!(),
    }
    assert_eq!(canonical_base_url("ANTHROPIC").unwrap(), "https://api.anthropic.com/v1");
    assert_eq!(cache_key("OpenAI", "HTTP://X/"), "openai|http://x");
}

#[test]
fn discovery_request_headers() {
    match discovery_request("openai", "https://h/", None) {
        Err(a) => assert_eq!(a.status, "no-key"),
        Ok(_) => panic!(),
    }
    let (url, h) = discovery_request("anthropic", "https://h/", Some("k")).ok().unwrap();
    assert_eq!(url, "https://h/models");
    assert_eq!(h.get("x-api-key").unwrap(), "k");
    let (_, h2) = discovery_request("openai", "https://h", Some("k")).ok().unwrap();
    assert_eq!(h2.get("Authorization").unwrap(), "Bearer k");
}

#[test]
fn model_ids_sorted_and_deduplicated() {
    let ids = parse_model_ids(r#"{"data":[{"id":"b"},{"id":"a"},{"x":1}],"models":[{"name":"c"},{"id":"a"}]}"#);
    assert_eq!(ids, vec!["a".to_string(), "b".to_string(), "c".to_string()]);
    assert!(parse_model_ids("not json").is_empty());
}

#[test]
fn listing_cache_is_fresh_for_five_minutes() {
    let mut c = ModelCache::new();
    c.store("k", vec!["m".to_string()], 1_000);
    assert_eq!(c.lookup("k", 1_000 + 299_999).unwrap(), vec!["m".to_string()]);
    assert!(c.lookup("k", 1_000 + 300_000).is_none());
    assert!(c.lookup("other", 1_000).is_none());
}

#[test]
fn npm_search_prefers_newest_nvm_version() {
    let mut cache = None;
    let probe = |p: String| p.contains("v20") || p == "/usr/local/bin/npm";
    let r = find_npm(&mut cache, "/h", false, None, None, None, Some(vec!["v18.1.0".into(), "v20.0.0".into(), "x".into()]), &probe);
    assert_eq!(r.unwrap(), "/h/.nvm/versions/node/v20.0.0/bin/npm");
    assert_eq!(cache.clone().unwrap(), "/h/.nvm/versions/node/v20.0.0/bin/npm");
    let none = |_p: String| false;
    let mut c2 = None;
    assert_eq!(find_npm(&mut c2, "/h", true, None, None, None, None, &none).unwrap(), "npm.cmd");
}

#[test]
fn claw3d_settings_and_steps() {
    assert_eq!(saved_port(Some(" 4000\n".into())), 4000);
    assert_eq!(saved_port(Some("70000".into())), 3000);
    assert_eq!(saved_port(None), 3000);
    assert_eq!(saved_ws_url(Some("  ".into())), "ws://localhost:18789");
    assert!(matches!(start_step(false, false), StartStep::Refuse(_)));
    assert!(matches!(start_step(true, true), StartStep::AlreadyRunning));
    let (args, env) = dev_command(3000, "ws://x");
    assert_eq!(strs(&args), vec!["run", "dev"]);
    assert_eq!(env.get("PORT").unwrap(), "3000");
    let r = start_all_result(Ok(true), Some(Err("adapter".into())));
    assert!(!r.success);
    assert_eq!(r.error.unwrap(), "adapter");
    assert_eq!(claw3d_logs(&vec![]), "No logs");
    assert_eq!(claw3d_logs(&vec![("a.log".into(), "x".into()), ("b.txt".into(), "y".into())]), "--- a.log ---\nx\n");
}

#[test]
fn env_file_usable_values() {
    assert!(env_has_usable_value("# c\nOPENAI_API_KEY=\"sk\"\n", None));
    assert!(!env_has_usable_value("OPENAI_API_KEY=''\n", None));
    assert!(env_has_usable_value("HF_TOKEN=x\n", Some("HF_TOKEN")));
    assert!(!env_has_usable_value("HF_TOKEN=x\n", None));
}

#[test]
fn installer_texts() {
    assert_eq!(ps_quote("it's"), "'it''s'");
    let w = install_wrapper("C:\\h", "C:\\h\\a");
    assert!(w.contains("-HermesHome 'C:\\h' -InstallDir 'C:\\h\\a'\n$exit"));
    assert_eq!(version_text("  1.2.3\n").unwrap(), "1.2.3");
    assert!(version_text(" \n").is_none());
    let b = backup_result(Ok("working\nsaved /tmp/b.zip\n".into()));
    assert_eq!(b.path.unwrap(), "saved /tmp/b.zip");
    assert_eq!(log_tail("a\nb\nc", Some(2)), "b\nc");
    assert_eq!(log_tail("a\nb", None), "a\nb");
}

#[test]
fn memory_providers_sorted_active_first() {
    let dirs = vec![("mem0".to_string(), false), ("_x".to_string(), true), ("honcho".to_string(), true), ("byterover".to_string(), true)];
    let v = memory_providers(&dirs, Some("memory:\n  provider: mem0\n"));
    let names: Vec<&str> = v.iter().map(|p| p.name.as_str()).collect();
    assert_eq!(names, vec!["mem0", "byterover", "honcho"]);
    assert!(v[0].active);
    assert_eq!(v[2].env_vars, vec!["HONCHO_API_KEY".to_string()]);
}

#[test]
fn profiles_records() {
    assert_eq!(active_profile_name(Some(r#"{"activeProfile":"work"}"#)), "work");
    assert_eq!(active_profile_name(Some("not json")), "default");
    let (p, m) = read_profile_metadata(Some("model:\n  provider: openai\n  default: gpt-4\n"));
    assert_eq!(p, "openai");
    assert_eq!(m, "gpt-4");
    let pr = profile_from_json(&parse_json(r#"{"name":"default","active":true,"skillCount":3}"#).unwrap());
    assert!(pr.is_default && pr.is_active);
    assert_eq!(pr.skill_count, 3);
    assert_eq!(strs(&create_profile_args("n", Some(true))), vec!["profile", "create", "n", "--clone-from", "default"]);
}

#[test]
fn cron_jobs_read_and_filtered() {
    let text = r#"[{"id":"1","cron":"* * * * *","message":"hi","enabled":false},{"id":"2","schedule":"@daily","deliver":["a",1,"b"]}]"#;
    let all = jobs_from_text(text, Some(true));
    assert_eq!(all.len(), 2);
    assert_eq!(all[0].schedule, "* * * * *");
    assert_eq!(all[0].prompt, "hi");
    assert_eq!(all[1].state, "active");
    assert_eq!(all[1].deliver, vec!["a".to_string(), "b".to_string()]);
    let enabled = jobs_from_text(text, None);
    assert_eq!(enabled.len(), 1);
    assert_eq!(enabled[0].id, "2");
    assert!(jobs_from_text("{}", None).is_empty());
    assert_eq!(remote_jobs_url("http://h//"), "http://h/api/jobs");
    assert_eq!(strs(&create_job_args(Some("n"), "s", None, Some("d"))), vec!["cron", "create", "--schedule", "s", "--name", "n", "--deliver", "d"]);
    assert_eq!(cron_result(Err("e".into())).error.unwrap(), "e");
    let j = normalize_job(&parse_json("{}").unwrap());
    assert!(j.enabled);
}

#[test]
fn kanban_commands() {
    assert_eq!(strs(&list_boards_args(Some(true))), vec!["kanban", "boards", "--json", "--include-archived"]);
    let input = parse_json(r#"{"title":"T","priority":-3}"#).unwrap();
    assert_eq!(strs(&create_task_args(&input)), vec!["kanban", "create", "--json", "--title", "T", "--priority", "-3"]);
    let r = ok_json(Ok("[1,2]".into()));
    assert_eq!(r.data.unwrap().len(), 2);
    assert_eq!(ok_json(Ok("x".into())).data.unwrap().len(), 0);
    assert_eq!(ok_bool(Err("no".into())).error.unwrap(), "no");
}

fn server(name: &str) -> McpServer {
    McpServer { name: name.into(), command: "c".into(), args: vec![], enabled: true }
}

#[test]
fn mcp_servers_by_name() {
    let mut v = vec![server("a")];
    assert_eq!(add_mcp_server(&mut v, "a", "x", vec![]).err().unwrap(), "mcp.serverExists");
    assert_eq!(add_mcp_server(&mut v, "b", "x", vec!["-y".into()]).ok().unwrap().command, "x");
    assert_eq!(v.len(), 2);
    let u = update_mcp_server(&mut v, "b", None, None, Some(false)).ok().unwrap();
    assert!(!u.enabled);
    assert_eq!(update_mcp_server(&mut v, "zz", None, None, None).err().unwrap(), "Server 'zz' not found");
    remove_mcp_server(&mut v, "a");
    assert_eq!(v.len(), 1);
    assert_eq!(v[0].name, "b");
}

#[test]
fn toolsets_read_and_edited() {
    let cfg = "model: x\nplatform_toolsets:\n  cli:\n    - web\n    - \"terminal\"\nother: 1\n";
    assert_eq!(parse_enabled_toolsets(cfg), vec!["web".to_string(), "terminal".to_string()]);
    let t = get_toolsets(Some(cfg));
    assert_eq!(t.len(), 16);
    assert!(t[0].enabled && !t[1].enabled && t[2].enabled);
    assert!(get_toolsets(None).iter().all(|x| x.enabled));
    let edited = set_toolset_enabled(cfg, "file", true);
    assert_eq!(edited, "model: x\nplatform_toolsets:\n  cli:\n      - file\n      - terminal\n      - web\nother: 1\n");
    let off = set_toolset_enabled("a: 1\n", "web", false);
    assert_eq!(off, "a: 1\nplatform_toolsets:\n  cli:\n\n");
}

#[test]
fn desktop_settings() {
    assert_eq!(read_setting(Some(r#"{"gitPath":"/g"}"#), "gitPath"), "/g");
    assert_eq!(read_setting(None, "gitPath"), "");
    let v = with_setting(None, "npmPath", JsonValue::Str("/n".into()));
    assert_eq!(v.get("npmPath").unwrap().as_string().unwrap(), "/n");
    let tp = get_tool_paths(Some(r#"{"npmPath":"/n"}"#));
    assert_eq!(tp.get("npm").unwrap().as_string().unwrap(), "/n");
    assert_eq!(get_locale("", Some(r#"{"locale":"ja"}"#)).0, "ja");
    assert_eq!(get_locale("", Some(r#"{"locale":"xx"}"#)).0, "en");
    assert_eq!(get_locale("es", None).0, "es");
    assert_eq!(check_locale("fr").err().unwrap(), "Unsupported locale: fr");
    assert_eq!(safe_context_name("a.b/c", true), "a_b_c");
    assert_eq!(safe_context_name("a.b/c", false), "a.b_c");
    assert_eq!(count_memory_entries("a\n§\n \n§\nb"), 2);
    assert!(local_plugin(".hidden", true).is_none());
    assert!(local_plugin("p", true).unwrap().enabled);
}

#[test]
fn terminal_backend_section() {
    assert_eq!(get_terminal_backend(None), "local");
    assert_eq!(get_terminal_backend(Some("terminal_backend:\n  type: 'docker'\n")), "docker");
    assert_eq!(get_terminal_backend(Some("terminal_backend:\nmodel: x\n  type: ssh\n")), "local");
    assert_eq!(set_terminal_backend("a: 1\n", "docker"), "a: 1\nterminal_backend:\n  type: docker\n");
    assert_eq!(set_terminal_backend("terminal_backend:\n  type: local\nmodel: x\n", "ssh"), "terminal_backend:\n  type: ssh\nodel: x\n");
}

#[test]
fn tunnel_helpers() {
    let open = |p: u16| p < 19644;
    assert_eq!(find_free_port(19642, &open), 19644);
    let all_open = |_p: u16| true;
    assert_eq!(find_free_port(19642, &all_open), 19642);
    let cfg = SshConfig { host: "h".into(), port: 2222, username: "u".into(), key_path: String::new(), remote_port: 8642, local_port: 18642 };
    assert_eq!(connection_result(&cfg, true).message, "Connected to u@h:2222");
}

#[test]
fn gateway_decisions() {
    let mut f = InitFlags::new();
    assert!(f.ensure_initialized(false));
    assert!(!f.ensure_initialized(false));
    assert!(api_server_config("x: api_server").is_none());
    assert!(api_server_config("x: 1").unwrap().ends_with("host: \"127.0.0.1\"\n"));
    let env = gateway_env(&vec![("A".into(), "".into()), ("B".into(), "b".into())], "/h");
    assert_eq!(env.len(), 3);
    assert_eq!(env[0].0, "B");
    let mut s = GatewayState::Running(7);
    assert_eq!(stop_gateway(&mut s), Some(7));
    assert!(!gateway_status(&s, false));
    assert!(gateway_status(&s, true));
}

fn model(id: &str, provider: &str, m: &str) -> SavedModel {
    SavedModel { id: id.into(), name: "n".into(), provider: provider.into(), model: m.into(), base_url: String::new(), created_at: 0 }
}

#[test]
fn saved_models() {
    let mut v = vec![model("1", "openai", "gpt")];
    assert_eq!(add_model(&mut v, "2", "n", "openai", "gpt", "", 5).err().unwrap(), "models.alreadyExists");
    assert_eq!(add_model(&mut v, "2", "n", "openai", "gpt-4", "", 5).ok().unwrap().created_at, 5);
    assert!(update_model(&mut v, "2", &parse_json(r#"{"name":"New","model":3}"#).unwrap()));
    assert_eq!(v[1].name, "New");
    assert_eq!(v[1].model, "gpt-4");
    assert!(remove_model(&mut v, "1"));
    assert!(!remove_model(&mut v, "1"));
}

#[test]
fn cli_run_outcomes() {
    assert_eq!(cli_outcome(true, Ok(" out\n".into()), "", false).unwrap(), "out");
    assert_eq!(cli_outcome(false, Ok(String::new()), " boom ", false).err().unwrap(), "Hermes CLI error: boom");
    assert_eq!(cli_outcome(true, Err("bad".into()), "", true).err().unwrap(), "Invalid UTF-8: bad");
}

fn cached(id: &str) -> CachedSession {
    CachedSession { id: id.into(), title: "t".into(), started_at: 0, source: String::new(), message_count: 0, model: String::new() }
}

#[test]
fn cached_session_pages_and_titles() {
    let v = vec![cached("a"), cached("b"), cached("c")];
    let page = list_cached_sessions(&v, Some(1), Some(1));
    assert_eq!(page.len(), 1);
    assert_eq!(page[0].id, "b");
    assert_eq!(list_cached_sessions(&v, None, Some(5)).len(), 0);
    let mut w = vec![cached("a"), cached("b")];
    assert!(update_session_title(&mut w, "b", "New"));
    assert_eq!(w[1].title, "New");
    assert!(!update_session_title(&mut w, "z", "x"));
}

#[test]
fn layout_paths() {
    assert_eq!(memory_path("/h", Some("p")), "/h/profiles/p/memories/MEMORY.md");
    assert_eq!(hermes_python("/h", false), "/h/hermes-agent/venv/bin/python");
}
