//! Rules of the library on concrete values.

use chat_cli::actions::{
    confirm_prompt, confirm_tool_action, display_tool_path, execute_tool_search_tool, glob_to_regex,
    normalize_tool_path, plan_tool, ripgrep_args, tool_bash, tool_fetch, tool_glob, tool_grep,
    tool_read, ConfirmResult, SearchRun, ToolPlan,
};
use chat_cli::ansi::{ansi_truncate, display_width_char, visible_width, wrap_ansi_to_width};
use chat_cli::commands::{
    check_last, finish_doctor, handle_auth_set, model_lines, note_provider, print_auth_status,
    provider_lines, remove_auth, remove_model, remove_provider, save_model, save_provider,
    start_doctor, use_model, AuthChange,
};
use chat_cli::cli::{AuthSetArgs, ModelSetArgs, OutputFormat, ProviderSetArgs};
use chat_cli::config::{
    apply_runtime_config_defaults, expand_tilde, init_config_files, parse_headers,
    read_system_prompt, render_config_value, set_config_value, validate_config, AppConfig,
    AppPaths, FilesThere, PathVariables, PromptSource, ProviderConfig, SecretsConfig,
};
use chat_cli::diff::{
    build_edit_preview_diff, build_full_file_diff, diff_line_sequences, DiffLineKind,
};
use chat_cli::edit::{build_edit_preview, tool_edit, EditRequest, FileStatus, FileText};
use chat_cli::error::{AppError, AppResult, ResultCodeExt};
use chat_cli::json::{object1, object2, put_field, Json};
use chat_cli::media::{
    file_name_of, read_clipboard_text, read_image_inputs, ImageFile, MessageImage,
};
use chat_cli::provider::{
    build_anthropic_headers, build_openai_headers, chat_url, error_details,
    format_provider_read_error, health_url, map_http_error,
};
use chat_cli::render::{
    legacy_thinking_file_path, render_link, render_markdown, strip_thinking, thinking_file_path,
};
use chat_cli::reply::{
    decorate_openai_stream_delta, merge_usage, read_reply, stream_payload, ReplyOrigin,
    StreamedReply,
};
use chat_cli::session::{generate_session_id, generate_temp_session_id, Usage};
use chat_cli::shell::{command_base_name, split_command_segments};
use chat_cli::skills::{
    discover_skills_from_roots, extract_skill_summary, skill_roots, skill_scope_label,
    tool_skill_read, tool_skills_list, visit_skill_dir, SkillEntry, SkillVisit,
};
use chat_cli::sse::{JsonLineParser, SseParser};
use chat_cli::stream::{StreamPhase, StreamRenderer};
use chat_cli::table::Table;
use chat_cli::text::{
    byte_len, lines_of, parse_number, preview_string, replace, split_once, take_bytes, trim,
    words_of,
};
use chat_cli::tools::{
    full_tool_definitions, parse_tool_call, tool_call_requires_confirmation, tool_search_matches,
    ToolCall,
};

const SKILLS_DIR: &str = ".agents/skills";

fn text(s: &str) -> Json {
    Json::Str(s.to_string())
}

#[test]
fn texts_behave_like_texts() {
    assert_eq!(trim("\u{3000} a b \n"), "a b");
    assert_eq!(words_of(" a\u{a0}b  c "), vec!["a", "b", "c"]);
    assert_eq!(lines_of("a\r\nb\n\nc"), vec!["a", "b", "", "c"]);
    assert_eq!(split_once("k=v=w", "="), Some(("k".to_string(), "v=w".to_string())));
    assert_eq!(replace("aXbX", "X", "--"), "a--b--");
    assert_eq!(byte_len("aé你😀"), 10);
    assert_eq!(take_bytes("a你b", 3), "a");
    assert_eq!(take_bytes("a你b", 4), "a你");
    assert_eq!(preview_string("  one\n two three ", 7), "one two...");
    assert_eq!(parse_number("18446744073709551615", u64::MAX), Some(u64::MAX));
    assert_eq!(parse_number("18446744073709551616", u64::MAX), None);
    assert_eq!(parse_number("", 9), None);
}

#[test]
fn tables_keep_their_keys_in_order() {
    let mut table: Table<u8> = Table::new();
    table.insert("b", 2);
    table.insert("a", 1);
    table.insert("b", 3);
    assert_eq!(table.len(), 2);
    assert_eq!(table.key_at(0), "a");
    assert_eq!(table.get("b"), Some(&3));
    assert!(table.remove("a"));
    assert!(!table.remove("a"));
    assert_eq!(table.get("a"), None);
}

#[test]
fn widths_and_cuts() {
    assert_eq!(display_width_char('你'), 2);
    assert_eq!(display_width_char('\n'), 0);
    assert_eq!(visible_width("\x1b[31mab\x1b[0m"), 2);
    assert_eq!(ansi_truncate("\x1b[31m你好\x1b[0m", 3), "\x1b[31m你\x1b[0m");
    assert_eq!(wrap_ansi_to_width("abcde", 2), vec!["ab", "cd", "e"]);
    assert_eq!(wrap_ansi_to_width("", 2), vec![""]);
    assert_eq!(wrap_ansi_to_width("你a", 1), vec!["你", "a"]);
    assert_eq!(
        wrap_ansi_to_width("\x1b[1mabc", 2),
        vec!["\x1b[1mab\x1b[0m", "\x1b[1mc\x1b[0m"]
    );
}

#[test]
fn json_fields_are_set_and_read_back() {
    let mut fields = vec![("a".to_string(), Json::Null)];
    put_field(&mut fields, "a", text("x"));
    put_field(&mut fields, "b", Json::Bool(false));
    let j = Json::Object(fields);
    assert_eq!(j.to_text(), "{\"a\":\"x\",\"b\":false}");
    assert_eq!(j.to_pretty(), "{\n  \"a\": \"x\",\n  \"b\": false\n}");
    let read = Json::read("{\"n\":[1,-2,2.50]}").unwrap();
    assert_eq!(read.to_text(), "{\"n\":[1,-2,2.5]}");
    assert!(Json::read("{").unwrap_err().starts_with("EOF while parsing"));
}

#[test]
fn thinking_is_parted_from_the_answer() {
    assert_eq!(
        strip_thinking("a<think>x</think>\nb<think>y"),
        ("ab".to_string(), "xy".to_string())
    );
    assert_eq!(render_markdown("<think></think>", false), "");
    assert_eq!(
        thinking_file_path(&Some("/data".to_string())),
        "/data/chat-cli/.last_thinking"
    );
    assert_eq!(legacy_thinking_file_path(&None), ".config/chat-cli/.last_thinking");
}

#[test]
fn streamed_text_does_not_depend_on_its_pieces() {
    let mut whole = StreamRenderer::new(false);
    let mut parts = StreamRenderer::new(false);
    let all = "# Title\n- item\nplain\n";
    let expected = whole.push(all) + &whole.flush();
    let mut got = String::new();
    for piece in ["# Ti", "tle\n- it", "em\npla", "in\n"] {
        got += &parts.push(piece);
    }
    got += &parts.flush();
    assert_eq!(got, expected);
    assert_eq!(parts.flush(), "");
}

#[test]
fn tags_may_come_in_any_pieces() {
    let all = "a <b\n<think>\nwhy\nso</think>then <thin>\nend";
    let mut whole = StreamRenderer::new(false);
    let expected = whole.push(all) + &whole.flush();
    for cut in 0..all.len() {
        let mut parts = StreamRenderer::new(false);
        let got = parts.push(&all[..cut]) + &parts.push(&all[cut..]) + &parts.flush();
        if all[..cut].ends_with("<think>") {
            assert_ne!(got, expected);
        } else {
            assert_eq!(got, expected, "cut at {cut}");
        }
    }
}

#[test]
fn written_values_read_back() {
    let deep = |n: usize| (0..n).fold(Json::Null, |inner, _| Json::Array(vec![inner]));
    let value = object2(
        "z",
        text("\n\r\u{1} \"\\"),
        "a",
        Json::Array(vec![deep(3), object1("k", Json::Bool(true))]),
    );
    let written = value.to_text();
    assert!(written.chars().all(|c| c >= ' '));
    assert!(written.starts_with('{'));
    let read = Json::read(&written).unwrap();
    assert_eq!(read.get("z").and_then(|z| z.as_str()), Some("\n\r\u{1} \"\\"));
    assert_eq!(read.get("a").map(|a| a.to_text()).unwrap(), "[[[[null]]],{\"k\":true}]");
    assert!(Json::read(&deep(127).to_text()).is_ok());
    assert!(Json::read(&deep(128).to_text()).is_err());
}

#[test]
fn links_show_label_and_target() {
    assert_eq!(
        render_link("https://a.b", "https://a.b"),
        "\x1b[4m\x1b[36mhttps://a.b\x1b[0m"
    );
    let shown = render_link("docs", "https://a.b");
    assert_eq!(strip_codes(&shown), "docs <https://a.b>");
}

fn strip_codes(text: &str) -> String {
    let mut out = String::new();
    let mut inside = false;
    for c in text.chars() {
        if inside {
            inside = c != 'm';
        } else if c == '\x1b' {
            inside = true;
        } else {
            out.push(c);
        }
    }
    out
}

#[test]
fn events_do_not_depend_on_their_pieces() {
    let mut parser = SseParser::default();
    let mut got = Vec::new();
    for byte in "data: 你\ndata: b\n\ndata: [DONE]\n\n".as_bytes() {
        got.extend(parser.push_bytes(&[*byte]).unwrap());
    }
    got.extend(parser.finish().unwrap());
    let mut whole = SseParser::default();
    let mut expected =
        whole.push_bytes("data: 你\ndata: b\n\ndata: [DONE]\n\n".as_bytes()).unwrap();
    expected.extend(whole.finish().unwrap());
    assert_eq!(got, expected);
    assert_eq!(got[0], "你\nb");
    let mut lines = JsonLineParser::default();
    assert!(lines.push_bytes(&[0xff, b'\n']).is_err());
}

#[test]
fn replies_are_read_by_kind() {
    let origin = || ReplyOrigin {
        provider_id: "p".to_string(),
        model_id: "m".to_string(),
        latency_ms: 4,
    };
    let reply = read_reply(
        "anthropic",
        origin(),
        200,
        "{\"content\":[{\"type\":\"text\",\"text\":\"hi\"}],\"stop_reason\":\"end_turn\",\"usage\":{\"input_tokens\":1,\"output_tokens\":2}}",
    )
    .unwrap();
    assert_eq!(reply.content, "hi");
    assert_eq!(reply.usage.total_tokens, Some(3));
    let err = read_reply("openai_compatible", origin(), 429, "slow down").unwrap_err();
    assert_eq!(err.code, 6);
    assert_eq!(map_http_error(401, "{\"error\":{\"message\":\"bad key\"}}").code, 4);
    let mut usage = Usage { input_tokens: Some(1), output_tokens: None, total_tokens: None };
    merge_usage(
        &mut usage,
        &Usage { input_tokens: None, output_tokens: Some(5), total_tokens: None },
    );
    assert_eq!(usage.output_tokens, Some(5));
    assert_eq!(usage.input_tokens, Some(1));
}

#[test]
fn streamed_replies_gather_calls() {
    let mut state = StreamedReply::new("openai_compatible");
    for payload in [
        "{\"choices\":[{\"delta\":{\"reasoning_content\":\"hm\"}}]}",
        "{\"choices\":[{\"delta\":{\"content\":\"yes\"}}]}",
        "{\"choices\":[{\"delta\":{\"tool_calls\":[{\"index\":0,\"id\":\"c1\",\"function\":{\"name\":\"Bash\",\"arguments\":\"{\\\"a\\\"\"}}]}}]}",
        "{\"choices\":[{\"delta\":{\"tool_calls\":[{\"index\":0,\"function\":{\"arguments\":\":1}\"}}]},\"finish_reason\":\"tool_calls\"}]}",
    ] {
        stream_payload("openai_compatible", &mut state, payload).unwrap();
    }
    let reply = state.into_response(ReplyOrigin {
        provider_id: "p".to_string(),
        model_id: "m".to_string(),
        latency_ms: 1,
    });
    assert_eq!(reply.content, "<think>\nhm</think>\n\nyes");
    assert_eq!(reply.finish_reason, "tool_calls");
    let call = parse_tool_call(&reply.tool_calls[0]).unwrap();
    assert_eq!(call.name, "Bash");
    assert_eq!(call.arguments.to_text(), "{\"a\":1}");
}

#[test]
fn urls_and_headers() {
    let mut provider = ProviderConfig {
        kind: "anthropic".to_string(),
        base_url: Some("https://x.example/v1/".to_string()),
        ..ProviderConfig::default()
    };
    assert_eq!(chat_url(&provider).unwrap(), "https://x.example/v1/messages");
    assert_eq!(health_url(&provider).unwrap(), "https://x.example/v1/models");
    assert_eq!(build_anthropic_headers(&provider, " ").unwrap_err().code, 4);
    provider.headers.insert("X-Extra", "1".to_string());
    let headers = build_openai_headers(&provider, "key");
    assert!(headers.iter().any(|h| h.name.eq_ignore_ascii_case("authorization")
        && h.value == "Bearer key"));
    assert!(headers.iter().any(|h| h.name == "X-Extra" && h.value == "1"));
    assert!(error_details(&vec!["a".to_string(), "b".to_string()]).contains("b"));
    assert!(format_provider_read_error("openai", "reset", true, Some(5)).contains("reset"));
}

#[test]
fn configuration_values_read_back() {
    let mut config = AppConfig::default();
    for (key, value) in [
        ("defaults.provider", "p"),
        ("defaults.output", "json"),
        ("defaults.tools", "false"),
        ("tools.max_rounds", "7"),
    ] {
        set_config_value(&mut config, key, value).unwrap();
        assert_eq!(render_config_value(&config, key).unwrap(), value);
    }
    assert_eq!(config.defaults.output, Some(OutputFormat::Json));
    assert_eq!(set_config_value(&mut config, "no.such.key", "1").unwrap_err().code, 3);
    assert!(set_config_value(&mut config, "tools.max_rounds", "many").is_err());
    assert!(set_config_value(&mut config, "skills.paths", "[1]").is_err());
    assert!(validate_config(&config).iter().any(|i| i.contains("p")));
    assert_eq!(expand_tilde("~/a", &Some("/h".to_string())), "/h/a");
    let headers = parse_headers(&vec!["A = 1".to_string()]).unwrap();
    assert_eq!(headers.get("A").map(|s| s.as_str()), Some("1"));
    assert!(parse_headers(&vec!["novalue".to_string()]).is_err());
}

fn variables() -> PathVariables {
    PathVariables {
        home: Some("/home/me".to_string()),
        config_home: None,
        data_home: None,
        cache_home: None,
    }
}

#[test]
fn paths_and_defaults_settle() {
    let paths = AppPaths::from_overrides(Some("/c".to_string()), None, variables()).unwrap();
    assert_eq!(paths.config_file, "/c/config.toml");
    let mut config = AppConfig::default();
    apply_runtime_config_defaults(&paths, &mut config);
    assert!(config.audit.bash_prompt_file.as_ref().unwrap().starts_with("/c/"));
    let first = config.audit.default_prompt_file.clone();
    apply_runtime_config_defaults(&paths, &mut config);
    assert_eq!(config.audit.default_prompt_file, first);
    let there = FilesThere {
        config: true,
        secrets: false,
        default_prompt: false,
        bash_prompt: true,
        edit_prompt: false,
    };
    let plan = init_config_files(&paths, there, SKILLS_DIR);
    assert!(!plan.write_config && plan.write_secrets);
    assert_eq!(plan.config.models.len() + plan.config.providers.len(), 0);
    let written = plan.prompts.iter().map(|file| file.path.as_str()).collect::<Vec<_>>();
    assert_eq!(written, vec!["/c/prompts/audit-default.md", "/c/prompts/audit-edit.md"]);
    let again = FilesThere {
        config: true,
        secrets: true,
        default_prompt: true,
        bash_prompt: true,
        edit_prompt: true,
    };
    let plan = init_config_files(&paths, again, SKILLS_DIR);
    assert!(!plan.write_config && !plan.write_secrets && plan.prompts.is_empty());
    assert!(matches!(read_system_prompt(&Some("@a.md".to_string())), PromptSource::File(_)));
    assert!(matches!(read_system_prompt(&None), PromptSource::Missing));
}

fn provider_args(id: &str) -> ProviderSetArgs {
    ProviderSetArgs {
        id: id.to_string(),
        kind: "ollama".to_string(),
        base_url: Some("http://h".to_string()),
        api_key_env: None,
        headers: vec!["a=b".to_string()],
        org: None,
        project: None,
        default_model: None,
        timeout: Some(3),
    }
}

fn model_args(id: &str, provider: &str) -> ModelSetArgs {
    ModelSetArgs {
        id: id.to_string(),
        provider: provider.to_string(),
        remote_name: "r".to_string(),
        display_name: None,
        context_window: None,
        max_output_tokens: None,
        capabilities: Vec::new(),
        temperature: None,
        reasoning_effort: None,
        patch_system_to_user: true,
    }
}

#[test]
fn providers_and_models_are_managed() {
    let mut config = AppConfig::default();
    assert_eq!(save_provider(&mut config, provider_args("p")).unwrap(), "saved provider p");
    let mut broken = provider_args("q");
    broken.headers = vec!["x".to_string()];
    assert!(save_provider(&mut config, broken).is_err());
    assert_eq!(provider_lines(&config), vec!["p kind=ollama base_url=http://h"]);
    assert_eq!(save_model(&mut config, model_args("m", "p")).unwrap(), "saved model m");
    assert_eq!(
        save_model(&mut config, model_args("n", "none")).unwrap_err().message,
        "provider `none` does not exist"
    );
    assert_eq!(config.models.get("m").unwrap().patches.system_to_user, Some(true));
    assert_eq!(model_lines(&config, None), vec!["p/r"]);
    assert!(model_lines(&config, Some("other")).is_empty());
    assert_eq!(use_model(&mut config, "m").unwrap(), "default model set to m provider=p");
    assert_eq!(config.defaults.model.as_deref(), Some("m"));
    assert_eq!(remove_provider(&mut config, "p").unwrap(), "removed provider p");
    assert_eq!(config.defaults.model, None);
    assert_eq!(config.defaults.provider, None);
    assert_eq!(remove_model(&mut config, "m").unwrap(), "removed model m");
    assert_eq!(
        remove_model(&mut config, "m").unwrap_err().message,
        "model `m` does not exist"
    );
}

fn auth(value: Option<&str>, stdin: bool, env: Option<&str>) -> AuthSetArgs {
    AuthSetArgs {
        provider_id: "p".to_string(),
        stdin,
        value: value.map(|v| v.to_string()),
        env: env.map(|v| v.to_string()),
    }
}

#[test]
fn keys_are_stored_and_forgotten() {
    let mut config = AppConfig::default();
    let mut secrets = SecretsConfig::default();
    assert!(handle_auth_set(&mut config, &mut secrets, auth(Some("k"), false, None), None).is_err());
    save_provider(&mut config, provider_args("p")).unwrap();
    match handle_auth_set(&mut config, &mut secrets, auth(None, true, None), Some(" key\n".into())) {
        Ok(AuthChange::Secrets(said)) => assert_eq!(said, "stored auth for p"),
        other => panic!("unexpected change: {other:?}"),
    }
    assert_eq!(secrets.providers.get("p").unwrap().api_key.as_deref(), Some("key"));
    assert_eq!(
        handle_auth_set(&mut config, &mut secrets, auth(None, false, None), None)
            .unwrap_err()
            .message,
        "config auth set requires --value, --stdin, or --env"
    );
    match handle_auth_set(&mut config, &mut secrets, auth(None, false, Some("VAR")), None) {
        Ok(AuthChange::Config(said)) => {
            assert_eq!(said, "provider p now reads API key from env VAR")
        }
        other => panic!("unexpected change: {other:?}"),
    }
    let mut env = Table::new();
    env.insert("VAR", "x".to_string());
    assert_eq!(
        print_auth_status(&config, &secrets, "p", &env).unwrap(),
        "p env=VAR env_present=1 file_present=1"
    );
    assert!(remove_auth(&mut secrets, "p"));
    assert!(!remove_auth(&mut secrets, "q"));
    assert_eq!(
        print_auth_status(&config, &secrets, "p", &Table::new()).unwrap(),
        "p env=VAR env_present=0 file_present=0"
    );
}

#[test]
fn the_check_reports_the_first_fault() {
    let mut config = AppConfig::default();
    config.defaults.provider = Some("gone".to_string());
    let paths = AppPaths::from_overrides(Some("/c".to_string()), None, variables()).unwrap();
    let mut report = start_doctor(&config, &paths, "/s");
    assert_eq!(report.code, Some(3));
    assert_eq!(report.lines[3], "config=invalid");
    let failed: AppResult<()> = Err(AppError::new(5, "down"));
    note_provider(&mut report, "auth".to_string(), "p", &failed);
    assert_eq!(report.lines.last().unwrap(), "provider_test=p ok=0 error=\"down\"");
    let err = finish_doctor(&report).unwrap_err();
    assert_eq!((err.code, err.message.as_str()), (3, "doctor found issues"));
    let healthy = start_doctor(&AppConfig::default(), &paths, "/s");
    assert_eq!(healthy.lines[3], "config=ok");
    assert!(finish_doctor(&healthy).is_ok());
    assert!(check_last(Some(0)).is_err());
    let coded: AppResult<u8> = Err("why".to_string()).code(9, "what");
    assert_eq!(coded.unwrap_err().message, "what: why");
}

#[test]
fn images_are_read_and_encoded() {
    let files = vec![ImageFile { path: "a.png".to_string(), content: Ok(b"abc".to_vec()) }];
    let images = read_image_inputs(&files, None).unwrap();
    assert_eq!(images[0].data, "YWJj");
    assert_eq!(images[0].data_url(), "data:image/png;base64,YWJj");
    let odd = vec![ImageFile { path: "a.txt".to_string(), content: Ok(b"abc".to_vec()) }];
    assert!(read_image_inputs(&odd, None).is_err());
    let clip = MessageImage::from_bytes(b"a", "image/gif");
    assert_eq!(clip.data, "YQ==");
    assert_eq!(read_image_inputs(&files, Some(Ok(clip))).unwrap().len(), 2);
    assert!(read_clipboard_text(None, None, None).is_err());
    assert_eq!(file_name_of("/a/b.txt"), "b.txt");
}

#[test]
fn shell_commands_are_taken_apart() {
    assert_eq!(split_command_segments("ls | wc -l && pwd"), vec!["ls", "wc -l", "pwd"]);
    assert_eq!(command_base_name("  /usr/bin/git status").as_deref(), Some("/usr/bin/git"));
}

fn call(name: &str, arguments: Json) -> ToolCall {
    ToolCall { id: "c".to_string(), name: name.to_string(), arguments }
}

#[test]
fn calls_become_plans() {
    match plan_tool(&call("read", object2("path", text("a"), "limit", Json::Null))).unwrap() {
        ToolPlan::Read(path, None, None) => assert_eq!(path, "a"),
        other => panic!("unexpected plan: {other:?}"),
    }
    assert!(plan_tool(&call("Bash", Json::Object(Vec::new()))).is_err());
    match plan_tool(&call("Nope", Json::Null)).unwrap() {
        ToolPlan::Unknown(name) => assert_eq!(name, "Nope"),
        other => panic!("unexpected plan: {other:?}"),
    }
    assert!(tool_call_requires_confirmation(&call("Nope", Json::Null)));
    assert!(parse_tool_call(&object1("id", text("x"))).is_err());
    assert!(tool_search_matches("e", 2).len() <= 2);
    let definitions = full_tool_definitions(SKILLS_DIR);
    assert_eq!(definitions.len(), 8);
    let list = definitions[6].get("function").and_then(|f| f.get("description"));
    assert_eq!(
        list.and_then(|d| d.as_str()),
        Some("List available skills from the current project's .agents/skills directory and ~/.agents/skills.")
    );
    assert!(definitions[7].to_text().contains("'path:./.agents/skills'"));
    assert_eq!(execute_tool_search_tool("zzzz", 3, SKILLS_DIR), "no matching tools found");
}

#[test]
fn results_of_tools_become_text() {
    assert_eq!(tool_read("a\nb\nc", Some(2), Some(1)).lines().count(), 2);
    assert!(tool_bash("out\n", "err", false, Some(3)).contains("3"));
    assert_eq!(glob_to_regex("src/*.rs"), "^src/[^/]*\\.rs$");
    let files = vec!["b.rs".to_string(), "a.rs".to_string(), "a.txt".to_string()];
    assert_eq!(tool_glob("*.rs", &files).unwrap(), "a.rs\nb.rs");
    assert!(tool_fetch(404, "gone").contains("404"));
    let run = SearchRun { code: Some(1), stdout: String::new(), stderr: String::new() };
    assert!(tool_grep("content", &run).is_ok());
    let bad = SearchRun { code: Some(2), stdout: String::new(), stderr: "boom".to_string() };
    assert!(tool_grep("content", &bad).unwrap_err().message.contains("boom"));
    assert!(ripgrep_args("nonsense", "p", ".", None).is_err());
    assert_eq!(normalize_tool_path("a", &Some("/w".to_string())), "/w/a");
    assert_eq!(display_tool_path("/w/a", &Some("/w".to_string())), "a");
    assert_eq!(display_tool_path("/w/a", &Some("/w/".to_string())), "a");
    assert_eq!(display_tool_path("/w//./a/./b/", &Some("/w".to_string())), "a/./b");
    assert_eq!(display_tool_path("/w", &Some("/w".to_string())), "");
    assert_eq!(display_tool_path("/wa", &Some("/w".to_string())), "/wa");
    assert_eq!(display_tool_path("/etc/x", &Some("/".to_string())), "etc/x");
    assert_eq!(display_tool_path("w/a", &Some("/w".to_string())), "w/a");
    assert!(confirm_prompt("run", false).contains("run? "));
    assert!(matches!(confirm_tool_action(true, None, None), Some(ConfirmResult::Yes)));
    assert!(matches!(confirm_tool_action(false, None, None), Some(ConfirmResult::No(Some(_)))));
    assert!(confirm_tool_action(false, Some("what"), None).is_none());
}

#[test]
fn diffs_tell_both_files() {
    let old = vec!["a".to_string(), "b".to_string(), "c".to_string()];
    let new = vec!["a".to_string(), "x".to_string(), "c".to_string()];
    let kinds = diff_line_sequences(&old, &new).iter().map(|l| l.kind).collect::<Vec<_>>();
    assert_eq!(kinds.iter().filter(|k| **k == DiffLineKind::Context).count(), 2);
    assert_eq!(kinds.len(), 4);
    let diff = build_full_file_diff("f", "a\nb\n", "a\n");
    assert!(diff.contains("-b"));
}

fn edit(old: &str, new: &str, all: bool) -> EditRequest {
    EditRequest {
        path: "/w/f".to_string(),
        display_path: "f".to_string(),
        old_string: old.to_string(),
        new_string: new.to_string(),
        replace_all: all,
    }
}

#[test]
fn edits_change_what_they_name() {
    let status = FileStatus::Size(10);
    let file = FileText::Text("one two one".to_string());
    assert_eq!(tool_edit(&edit("two", "2", false), &status, &file).unwrap().content, "one 2 one");
    assert!(tool_edit(&edit("one", "1", false), &status, &file).is_err());
    assert_eq!(tool_edit(&edit("one", "1", true), &status, &file).unwrap().content, "1 two 1");
    assert!(tool_edit(&edit("three", "3", false), &status, &file).is_err());
    assert!(tool_edit(&edit("two", "two", false), &status, &file).is_err());
    let preview = build_edit_preview(&edit("two", "2", false), &status, &file).unwrap();
    assert!(preview.contains("-one two one") && preview.contains("+one 2 one"));
    let created =
        tool_edit(&edit("", "new\n", false), &FileStatus::Missing, &FileText::Missing).unwrap();
    assert_eq!(created.content, "new\n");
}

fn skill(name: &str, scope: &str, summary: &str) -> SkillEntry {
    SkillEntry {
        name: name.to_string(),
        scope: scope.to_string(),
        path: format!("/{scope}/{name}/SKILL.md"),
        summary: Some(summary.to_string()),
    }
}

#[test]
fn discover_skills_from_roots_finds_project_and_global_skills() {
    let entries = discover_skills_from_roots(vec![
        skill("local-skill", "project", "Local summary"),
        skill(".system/agent-browser", "global", "Headless browser automation"),
    ]);
    assert_eq!(entries.len(), 2);
    assert_eq!(entries[0].name, ".system/agent-browser");
    assert_eq!(entries[1].name, "local-skill");
    assert_eq!(
        extract_skill_summary("# Local Skill\n\nLocal summary").as_deref(),
        Some("Local summary")
    );
    assert!(tool_skills_list(&entries, Some("browser")).contains("agent-browser"));
    assert!(tool_skill_read(&entries[1], "body").contains("body"));
    let roots = skill_roots(
        &AppConfig::with_skills_dir(SKILLS_DIR),
        &Some("/w".to_string()),
        &Some("/home/me".to_string()),
        SKILLS_DIR,
    );
    assert_eq!(roots[0].1, "/w/.agents/skills");
    assert_eq!(roots[1].1, "/home/me/.agents/skills");
    assert_eq!(roots[0].0, "project");
    assert_eq!(roots[1].0, "global");
    let place = Some("/w".to_string());
    let root = format!("{}/.//", roots[0].1);
    assert_eq!(skill_scope_label(&root, &place, &None, "x", SKILLS_DIR), "project");
    assert_eq!(skill_scope_label(&root, &None, &place, "x", SKILLS_DIR), "global");
    assert_eq!(skill_scope_label("/w/other", &place, &None, "other", SKILLS_DIR), "path:other");
}

#[test]
fn skills_are_looked_for_below_their_root() {
    let names = vec!["a".to_string(), "b".to_string()];
    match visit_skill_dir("x", false, &names) {
        SkillVisit::Visit(below) => assert_eq!(below, vec!["x/a", "x/b"]),
        other => panic!("unexpected step: {other:?}"),
    }
    match visit_skill_dir("", false, &names) {
        SkillVisit::Visit(below) => assert_eq!(below, vec!["a", "b"]),
        other => panic!("unexpected step: {other:?}"),
    }
    assert!(matches!(visit_skill_dir("", true, &names), SkillVisit::Nothing));
    match visit_skill_dir("x\\y/z", true, &Vec::new()) {
        SkillVisit::Skill(name) => assert_eq!(name, "x/y/z"),
        other => panic!("unexpected step: {other:?}"),
    }
}

#[test]
fn code_blocks_carry_their_language() {
    assert_eq!(
        render_markdown("```python\npass\n```", false).lines().next(),
        Some("\x1b[2mpython\x1b[0m")
    );
    assert_eq!(strip_codes(&render_markdown("```python x\npass\n```", false)), "python\npass");
    assert_eq!(strip_codes(&render_markdown("```\npass\n```", false)), "pass");
    let mut streamed = StreamRenderer::new(false);
    assert_eq!(strip_codes(&streamed.push("```rs\nlet x\n```\n")), "rs\nlet x\n");
}

#[test]
fn a_plain_document_streams_as_it_renders() {
    let all = "# Title\n\n- a **b**\n---\n> q <thi";
    let mut streamed = StreamRenderer::new(true);
    let got = streamed.push(all) + &streamed.flush();
    assert_eq!(got, render_markdown(all, true) + "\n");
}

#[test]
fn phases_given_over_many_calls_change() {
    let mut renderer = StreamRenderer::new(false);
    let mut given = Vec::new();
    for piece in ["a", "b\n<think>", "x", "</think>", "c<think>d</think>"] {
        renderer.push(piece);
        given.extend(renderer.drain_phase_transitions());
    }
    renderer.flush();
    given.extend(renderer.drain_phase_transitions());
    assert_eq!(
        given,
        vec![
            StreamPhase::Answering,
            StreamPhase::Thinking,
            StreamPhase::Answering,
            StreamPhase::Thinking,
            StreamPhase::Answering,
        ]
    );
}

#[test]
fn reasoning_is_enclosed_in_tags() {
    let mut open = false;
    let mut out = String::new();
    for (reasoning, answer, end) in [
        ("a", "", None),
        ("b", " FINISHED\n", None),
        ("c", "d", None),
        ("", "e", None),
        ("f", "", Some("stop")),
    ] {
        out += &decorate_openai_stream_delta(&mut open, reasoning, answer, end);
    }
    assert_eq!(out, "<think>\nabc</think>\n\nde<think>\nf</think>\n\n");
    assert!(!open);
}

#[test]
fn edit_offsets_count_bytes() {
    let diff = build_edit_preview_diff("f", "éab\n", &[2], "a", "x");
    assert!(diff.contains("-éab\n+éxb\n"));
}

#[test]
fn identifiers_are_new_and_well_formed() {
    let a = generate_session_id();
    let b = generate_session_id();
    assert_ne!(a, b);
    assert_eq!(a.len(), 31);
    assert!(generate_temp_session_id().starts_with("tmp_"));
}
