use hermes_desktop::json::JsonValue;
use hermes_desktop::ssh::{
    build_remote_hermes_cmd, platform_flags_of, shell_quote, ssh_add_model, ssh_set_config_value, ssh_get_platform_enabled, ssh_read_memory, ssh_read_file,
    SshCommand,
};

fn field_str(v: &JsonValue, a: &str, b: &str) -> String {
    v.get(a).unwrap().get(b).unwrap().as_string().unwrap()
}

fn field_u64(v: &JsonValue, a: &str, b: &str) -> u64 {
    v.get(a).unwrap().get(b).unwrap().as_u64().unwrap()
}

#[test]
fn add_model_passes_every_field_to_the_cli() {
    let exec = |c: SshCommand| -> Result<String, String> {
        assert!(read_word(c.command.strip_prefix("bash -c ").unwrap())
            .contains("'models' 'add' 'fast' '--provider' 'openai' '--model' 'gpt-x' '--base-url' 'http://h' '--json'"));
        assert_eq!(c.timeout_ms, 10000);
        Ok("{\"id\":\"m1\",\"name\":\"fast\"}".to_string())
    };
    let r = ssh_add_model("fast", "openai", "gpt-x", "http://h", &exec).unwrap();
    assert_eq!(r.get("id").unwrap().as_string().unwrap(), "m1");
}

#[test]
fn add_model_without_json_gives_an_empty_record() {
    let exec = |_c: SshCommand| -> Result<String, String> { Ok("added".to_string()) };
    let r = ssh_add_model("a", "b", "c", "d", &exec).unwrap();
    assert_eq!(r.get("id").unwrap().as_string().unwrap(), "");
    assert_eq!(r.get("baseUrl").unwrap().as_string().unwrap(), "");
}

#[test]
fn platform_flags_read_an_object_of_booleans() {
    let flags = platform_flags_of("{\"telegram\": true, \"discord\": false}");
    assert_eq!(flags.len(), 2);
    assert!(flags.contains(&("telegram".to_string(), true)));
    assert!(flags.contains(&("discord".to_string(), false)));
}

#[test]
fn platform_flags_reject_non_boolean_values() {
    assert!(platform_flags_of("{\"telegram\": 1}").is_empty());
    assert!(platform_flags_of("[true]").is_empty());
    assert!(platform_flags_of("nope").is_empty());
}

#[test]
fn platform_listing_passes_ssh_errors_through() {
    let exec = |_c: SshCommand| -> Result<String, String> { Err("down".to_string()) };
    assert_eq!(ssh_get_platform_enabled(&exec).err().unwrap(), "down");
    let ok = |c: SshCommand| -> Result<String, String> {
        assert!(read_word(c.command.strip_prefix("bash -c ").unwrap()).contains("'platforms' 'list' '--json'"));
        Ok("{\"slack\": true}".to_string())
    };
    assert_eq!(ssh_get_platform_enabled(&ok).unwrap(), vec![("slack".to_string(), true)]);
}

#[test]
fn remote_memory_counts_bytes_and_reads_stats() {
    let exec = |c: SshCommand| -> Result<String, String> {
        if c.command.contains("MEMORY.md") {
            Ok("abc".to_string())
        } else if c.command.contains("USER.md") {
            Ok("h\u{e9}llo".to_string())
        } else {
            assert!(c.command.starts_with("python3 -c "));
            assert!(c.command.contains("state.db"));
            Ok("{\"totalSessions\": 3, \"totalMessages\": 9}".to_string())
        }
    };
    let r = ssh_read_memory(None, &exec).unwrap();
    assert_eq!(field_str(&r, "memory", "content"), "abc");
    assert_eq!(field_u64(&r, "memory", "charCount"), 3);
    assert_eq!(field_u64(&r, "memory", "charLimit"), 2200);
    assert_eq!(field_u64(&r, "user", "charCount"), 6);
    assert_eq!(field_u64(&r, "user", "charLimit"), 1375);
    assert_eq!(r.get("user").unwrap().get("exists").unwrap().as_bool(), Some(true));
    assert_eq!(field_u64(&r, "stats", "totalSessions"), 3);
    assert_eq!(field_u64(&r, "stats", "totalMessages"), 9);
}

#[test]
fn remote_memory_defaults_stats_and_uses_profile_paths() {
    let exec = |c: SshCommand| -> Result<String, String> {
        if c.command.starts_with("python3") {
            assert!(c.command.contains("profiles/work/state.db"));
            Ok("oops".to_string())
        } else {
            assert!(c.command.contains("profiles/work/memories/"));
            Err("no file".to_string())
        }
    };
    let r = ssh_read_memory(Some("work"), &exec).unwrap();
    assert_eq!(field_str(&r, "memory", "content"), "");
    assert_eq!(r.get("memory").unwrap().get("exists").unwrap().as_bool(), Some(false));
    assert_eq!(field_u64(&r, "stats", "totalSessions"), 0);
    assert_eq!(field_u64(&r, "stats", "totalMessages"), 0);
}

#[test]
fn remote_memory_fails_when_the_stats_program_cannot_run() {
    let exec = |c: SshCommand| -> Result<String, String> {
        if c.command.starts_with("python3") {
            Err("ssh: connection refused".to_string())
        } else {
            Ok(String::new())
        }
    };
    assert_eq!(ssh_read_memory(None, &exec).err().unwrap(), "ssh: connection refused");
}

#[test]
fn remote_read_quotes_the_normalized_path() {
    let exec = |c: SshCommand| -> Result<String, String> {
        assert!(c.command.ends_with(&shell_quote("$HOME/.hermes/SOUL.md")));
        Ok("soul".to_string())
    };
    assert_eq!(ssh_read_file("~/.hermes/SOUL.md", &exec).unwrap(), "soul");
}

/// Reads a word made of `'…'` pieces and `"'"` the way a POSIX shell does.
fn read_word(s: &str) -> String {
    let c: Vec<char> = s.chars().collect();
    let mut out = String::new();
    let mut i = 0;
    while i < c.len() {
        if c[i] == '\'' {
            let mut j = i + 1;
            while c[j] != '\'' {
                out.push(c[j]);
                j += 1;
            }
            i = j + 1;
        } else {
            assert_eq!(&c[i..i + 3], &['"', '\'', '"']);
            out.push('\'');
            i += 3;
        }
    }
    out
}

#[test]
fn remote_config_arguments_stay_single_words() {
    let sent = std::cell::RefCell::new(Vec::new());
    let exec = |c: SshCommand| {
        sent.borrow_mut().push(c.command.clone());
        Ok(String::new())
    };
    ssh_set_config_value("agent.tier", "a b; rm -rf x 'q'", &exec).unwrap();
    let cmd = sent.borrow()[0].clone();
    assert_eq!(cmd, build_remote_hermes_cmd(&["config", "set", "agent.tier", "a b; rm -rf x 'q'"]));
    let word = cmd.strip_prefix("bash -c ").unwrap();
    let script = read_word(word);
    assert!(script.starts_with("[ -x $HOME/hermes-agent/.venv/bin/hermes ] && exec"));
    let arg = shell_quote("a b; rm -rf x 'q'");
    assert!(script.contains(&format!("exec hermes 'config' 'set' 'agent.tier' {};", arg)));
    assert_eq!(read_word(&arg), "a b; rm -rf x 'q'");
}
