//! Servers of tools.

use chat_cli::commands::{
    daemon_needs_start, daemon_status_lines, probe_lines, server_status_lines,
};
use chat_cli::config::{AppConfig, AppPaths, McpServerConfig};
use chat_cli::error::AppError;
use chat_cli::json::{array, object, object1, object2, object3, Json};
use chat_cli::mcp::{
    authenticate_and_cache_mcp, cached_mcp_tools_from_disk, current_mcp_daemon_status,
    current_mcp_server_statuses, daemon_call_reply, enabled_mcp_servers,
    execute_mcp_tool_with_daemon, expand_mcp_cwd, failed_probe, initialize_params,
    list_mcp_tools_from_ready_daemon, mcp_cache_path, mcp_daemon_log_path, mcp_daemon_pid_path,
    ping_mcp_daemon, render_call_tool_result, rpc_notification, rpc_reply, rpc_request,
    run_mcp_daemon, set_cache_entry, stop_mcp_daemon, successful_probe, successful_tools,
    validate_mcp_config, warmup_timeout_warning, DaemonServerSession, DaemonStep, McpCache,
    McpConfigCompat, McpDaemonRequest, McpDaemonResponse, McpDaemonState,
};
use chat_cli::mcp_search::{
    decode_tool_specs, fuzzy_subsequence_match, has_cached_mcp_tool, mcp_tool_definition_for_name,
    mcp_tool_search_terms, merge_tool_specs, search_mcp_tools, McpToolSpec,
};
use chat_cli::table::Table;

fn text(s: &str) -> Json {
    Json::Str(s.to_string())
}

fn paths() -> AppPaths {
    AppPaths {
        config_dir: "/c".to_string(),
        data_dir: "/d".to_string(),
        cache_dir: "/cache".to_string(),
        config_file: "/c/config.toml".to_string(),
        secrets_file: "/c/secrets.toml".to_string(),
        state_file: "/d/state.toml".to_string(),
    }
}

fn server(command: &str, args: &[&str]) -> McpServerConfig {
    McpServerConfig {
        command: command.to_string(),
        args: args.iter().map(|a| a.to_string()).collect(),
        ..McpServerConfig::default()
    }
}

fn tool(server: &str, name: &str, description: &str) -> McpToolSpec {
    McpToolSpec {
        full_name: format!("mcp__{server}__{name}"),
        server: server.to_string(),
        remote_name: name.to_string(),
        description: description.to_string(),
        input_schema: object1("type", text("object")),
        read_only: true,
    }
}

fn config_with_ace() -> AppConfig {
    let mut config = AppConfig::default();
    config.tools.mcp = Some(true);
    config.mcp.insert("ace", server("auggie", &["serve"]));
    config
}

#[test]
fn validate_mcp_config_rejects_empty_command() {
    let mut config = AppConfig::default();
    config.mcp.insert(
        "demo",
        McpServerConfig { command: String::new(), ..McpServerConfig::default() },
    );
    let issues = validate_mcp_config(&config);
    assert!(issues.iter().any(|issue| issue.contains("mcp.demo.command cannot be empty")));
}

#[test]
fn all_faults_of_a_server_are_listed() {
    let mut config = AppConfig::default();
    let mut faulty = server(" ", &[]);
    faulty.kind = Some("http".to_string());
    faulty.startup_timeout_sec = Some("0.0".to_string());
    faulty.tool_timeout_sec = Some("-1".to_string());
    config.mcp.insert("x", faulty);
    let mut fine = server("ok", &[]);
    fine.kind = Some("stdio".to_string());
    fine.tool_timeout_sec = Some("0.5".to_string());
    config.mcp.insert("y", fine);
    assert_eq!(
        validate_mcp_config(&config),
        vec![
            "mcp.x.command cannot be empty",
            "mcp.x.type must be 'stdio'",
            "mcp.x.startup_timeout_sec must be greater than 0",
            "mcp.x.tool_timeout_sec must be greater than 0",
        ]
    );
}

#[test]
fn search_mcp_tools_returns_empty_without_servers() {
    assert!(search_mcp_tools(&Vec::new(), "calendar", 5).is_empty());
}

#[test]
fn search_mcp_tools_supports_multi_term_fuzzy_case_insensitive_and_all() {
    let server_name = "toolsearch01";
    let tools = vec![
        tool(server_name, "execute_command", "Execute shell command"),
        tool(server_name, "codebase-retrieval", "Semantic code search"),
    ];

    let phrase_matches = search_mcp_tools(&tools, "execute command", 5);
    assert_eq!(phrase_matches[0].remote_name, "execute_command");

    let multi_matches = search_mcp_tools(&tools, "EXECUTE codebase", 5);
    let multi_names =
        multi_matches.iter().map(|tool| tool.remote_name.as_str()).collect::<Vec<_>>();
    assert!(multi_names.contains(&"execute_command"));
    assert!(multi_names.contains(&"codebase-retrieval"));

    let fuzzy_matches = search_mcp_tools(&tools, "cdbs", 5);
    assert_eq!(fuzzy_matches[0].remote_name, "codebase-retrieval");

    let all_matches = search_mcp_tools(&tools, "all", 1);
    assert_eq!(all_matches.len(), 2);
}

#[test]
fn search_terms_are_bare_and_lower_case() {
    assert_eq!(
        mcp_tool_search_terms(" (Foo), bär;  --x-- !!! "),
        vec!["foo", "bär", "--x--"]
    );
    assert!(fuzzy_subsequence_match("codebase", "cbs"));
    assert!(!fuzzy_subsequence_match("codebase", "sbc"));
    assert!(!fuzzy_subsequence_match("codebase", "cb"));
}

#[test]
fn mcp_cache_roundtrip_works() {
    let mut cache = McpCache::default();
    let mut ace = server("auggie", &["--mcp"]);
    ace.cwd = None;
    set_cache_entry(
        &mut cache,
        "ace",
        &ace,
        &vec![tool("ace", "codebase-retrieval", "Search")],
        1,
    );
    assert_eq!(cache.servers.len(), 1);
    assert_eq!(
        cache.servers.get("ace").unwrap().tools[0].full_name,
        "mcp__ace__codebase-retrieval"
    );
    assert_eq!(cache.servers.get("ace").unwrap().args, vec!["--mcp"]);
}

#[test]
fn warmup_timeout_warning_mentions_running_state() {
    let warning = warmup_timeout_warning(1050, 1000);
    assert!(warning.message.contains("still running"));
    assert!(warning.message.contains("after 50 ms"));
    assert!(warmup_timeout_warning(1, 2).message.contains("after 0 ms"));
}

fn state() -> McpDaemonState {
    McpDaemonState {
        pid: 123,
        port: 4567,
        started_at_unix_ms: 1,
        log_file: mcp_daemon_log_path(&paths()),
        server: Some("ace".to_string()),
    }
}

#[test]
fn daemon_state_roundtrip_works() {
    let loaded = state();
    assert_eq!(loaded.pid, 123);
    assert_eq!(loaded.port, 4567);
    assert_eq!(loaded.server.as_deref(), Some("ace"));
    assert_eq!(loaded.log_file, "/cache/mcp-daemon.log");
}

#[test]
fn current_mcp_daemon_status_reports_missing_state_as_not_running() {
    let status = current_mcp_daemon_status(&paths(), None);
    assert!(!status.running);
    assert!(!status.registered);
    assert!(status.pid.is_none());
    assert!(status.port.is_none());
    assert!(status.error.is_none());
}

#[test]
fn current_mcp_daemon_status_reports_stale_registration() {
    let ping = ping_mcp_daemon(Err(AppError::new(3, "failed to connect MCP daemon")));
    let status = current_mcp_daemon_status(&paths(), Some((state(), ping)));
    assert!(status.registered);
    assert!(!status.running);
    assert_eq!(status.pid, Some(123));
    assert_eq!(status.port, Some(4567));
    assert!(status.error.is_some());
    let lines = daemon_status_lines(true, &status);
    assert_eq!(
        lines,
        vec![
            "mcp_enabled: true",
            "daemon_registered: true",
            "daemon_running: false",
            "daemon_pid: 123",
            "daemon_port: 4567",
            "daemon_log: /cache/mcp-daemon.log",
            "daemon_server: ace",
            "daemon_error: failed to connect MCP daemon",
        ]
    );
}

#[test]
fn ensure_mcp_daemon_started_skips_when_mcp_disabled() {
    let status = current_mcp_daemon_status(&paths(), None);
    assert!(!daemon_needs_start(&AppConfig::default(), &status));
    assert!(!status.running);
    assert!(daemon_needs_start(&config_with_ace(), &status));
}

#[test]
fn cached_mcp_tools_from_disk_filters_to_matching_servers() {
    let config = config_with_ace();
    let mut cache = McpCache::default();
    set_cache_entry(
        &mut cache,
        "ace",
        &server("auggie", &["serve"]),
        &vec![tool("ace", "calendar", "Calendar")],
        1,
    );
    set_cache_entry(
        &mut cache,
        "stale",
        &server("old", &[]),
        &vec![tool("stale", "tool", "Old")],
        1,
    );
    let tools = cached_mcp_tools_from_disk(&config, &cache);
    assert_eq!(tools.len(), 1);
    assert_eq!(tools[0].full_name, "mcp__ace__calendar");
    let mut changed = config_with_ace();
    changed.mcp.insert("ace", server("auggie", &["other"]));
    assert!(cached_mcp_tools_from_disk(&changed, &cache).is_empty());
    assert!(cached_mcp_tools_from_disk(&AppConfig::default(), &cache).is_empty());
}

#[test]
fn prepare_ask_hydrates_matching_mcp_cache_into_runtime_cache() {
    let mut config = AppConfig::default();
    config.tools.mcp = Some(true);
    config.mcp.insert("ace", server("missing-command", &["serve"]));
    let mut cache = McpCache::default();
    set_cache_entry(
        &mut cache,
        "ace",
        &server("missing-command", &["serve"]),
        &vec![tool("ace", "calendar", "Calendar")],
        1,
    );
    let tools = cached_mcp_tools_from_disk(&config, &cache);
    assert!(has_cached_mcp_tool(&tools, "mcp__ace__calendar"));
}

#[test]
fn listed_tools_are_filtered_and_defined() {
    let mut config = server("x", &[]);
    config.enabled_tools = vec!["a".to_string(), "b".to_string()];
    config.disabled_tools = vec!["b".to_string()];
    let result = object1(
        "tools",
        array(vec![
            object2("name", text("a"), "annotations", object1("readOnlyHint", Json::Bool(true))),
            object1("name", text("b")),
            object1("name", text("c")),
            object1("title", text("nameless")),
        ]),
    );
    let tools = decode_tool_specs("srv", &config, &result);
    assert_eq!(tools.len(), 1);
    assert_eq!(tools[0].full_name, "mcp__srv__a");
    assert!(tools[0].read_only);
    assert_eq!(
        mcp_tool_definition_for_name(&tools, "mcp__srv__a").unwrap().to_text(),
        "{\"function\":{\"description\":\"[MCP:srv] Call MCP tool `a`.\",\"name\":\"mcp__srv__a\",\"parameters\":{\"additionalProperties\":true,\"properties\":{},\"type\":\"object\"}},\"type\":\"function\"}"
    );
    assert!(mcp_tool_definition_for_name(&tools, "mcp__srv__b").is_none());
}

#[test]
fn fresh_tools_replace_old_ones() {
    let merged = merge_tool_specs(
        &vec![tool("s", "b", "old"), tool("s", "a", "kept")],
        &vec![tool("s", "b", "new")],
    );
    let found =
        merged.iter().map(|t| (t.remote_name.as_str(), t.description.as_str())).collect::<Vec<_>>();
    assert_eq!(found, vec![("a", "kept"), ("b", "new")]);
}

#[test]
fn probes_fill_the_cache_only_when_all_went_well() {
    let config = config_with_ace();
    let result = object1("tools", array(vec![object1("name", text("t"))]));
    let good = successful_probe(
        "ace",
        &server("auggie", &["serve"]),
        vec!["start".to_string()],
        &vec!["note".to_string(), " ".to_string()],
        &result,
    );
    assert_eq!(good.debug, vec!["start", "stderr: note", "tools/list ok count=1"]);
    assert_eq!(successful_tools(&vec![]).len(), 0);
    let bad = failed_probe("other", "cmd", Vec::new(), &Vec::new(), "spawn", "no such file");
    assert_eq!(bad.debug, vec!["spawn error: no such file"]);
    assert_eq!(
        probe_lines(&bad, false),
        vec![
            "server: other",
            "status: error",
            "command: cmd",
            "tools: 0",
            "debug: spawn error: no such file",
            "error: no such file",
        ]
    );
    let lines = probe_lines(&good, false);
    assert_eq!(lines[4], "tool: mcp__ace__t");
    let probes = vec![good];
    let (cache, outcome) =
        authenticate_and_cache_mcp(&config, None, true, McpCache::default(), &probes, 5);
    assert!(outcome.is_ok());
    let cache = cache.unwrap();
    assert_eq!(cache.servers.get("ace").unwrap().checked_at_unix_ms, 5);
    let statuses = current_mcp_server_statuses(&config, &cache, &probes);
    assert_eq!(
        server_status_lines(&statuses[0]),
        vec![
            "server: ace",
            "enabled: true",
            "cache_match: true",
            "cache_tools: 1",
            "live_ok: true",
            "live_tools: 1",
        ]
    );
    let mut both = probes;
    both.push(bad);
    let (none, outcome) =
        authenticate_and_cache_mcp(&config, None, true, McpCache::default(), &both, 5);
    assert!(none.is_none());
    assert_eq!(outcome.unwrap_err().message, "no such file");
    assert_eq!(
        current_mcp_server_statuses(&AppConfig::default(), &cache, &both).len(),
        0
    );
}

fn request(kind: &str, name: Option<&str>, arguments: Option<Json>) -> McpDaemonRequest {
    McpDaemonRequest {
        kind: kind.to_string(),
        full_name: name.map(|n| n.to_string()),
        arguments,
    }
}

fn error_of(step: DaemonStep) -> String {
    match step {
        DaemonStep::Reply(response) => response.error.unwrap(),
        other => panic!("unexpected step: {other:?}"),
    }
}

#[test]
fn the_daemon_answers_requests() {
    let sessions =
        vec![DaemonServerSession { name: "ace".to_string(), tools: vec![tool("ace", "cal", "")] }];
    assert!(matches!(run_mcp_daemon(&request("stop", None, None), &sessions), DaemonStep::Stop(_)));
    match run_mcp_daemon(&request("tools", None, None), &sessions) {
        DaemonStep::Reply(response) => assert_eq!(response.tools.unwrap().len(), 1),
        other => panic!("unexpected step: {other:?}"),
    }
    assert_eq!(
        error_of(run_mcp_daemon(&request("call", None, None), &sessions)),
        "missing full_name"
    );
    assert_eq!(
        error_of(run_mcp_daemon(&request("call", Some("x"), None), &sessions)),
        "unknown MCP tool `x`"
    );
    assert_eq!(
        error_of(run_mcp_daemon(
            &request("call", Some("mcp__ace__cal"), Some(Json::Bool(true))),
            &sessions
        )),
        "MCP tool arguments must be a JSON object, got true"
    );
    assert_eq!(
        error_of(run_mcp_daemon(&request("dance", None, None), &sessions)),
        "unknown MCP daemon request `dance`"
    );
    match run_mcp_daemon(
        &request("call", Some("mcp__ace__cal"), Some(object1("day", text("today")))),
        &sessions,
    ) {
        DaemonStep::Call(index, params) => {
            assert_eq!(index, 0);
            assert_eq!(
                params.to_text(),
                "{\"arguments\":{\"day\":\"today\"},\"name\":\"cal\"}"
            );
        }
        other => panic!("unexpected step: {other:?}"),
    }
    assert!(daemon_call_reply(Ok("x".to_string())).ok);
    assert_eq!(
        daemon_call_reply(Err(AppError::new(3, "bad"))).error.as_deref(),
        Some("bad")
    );
}

fn response(ok: bool, content: Option<&str>, error: Option<&str>) -> McpDaemonResponse {
    McpDaemonResponse {
        ok,
        content: content.map(|c| c.to_string()),
        tools: None,
        error: error.map(|e| e.to_string()),
    }
}

#[test]
fn answers_of_the_daemon_are_understood() {
    assert_eq!(stop_mcp_daemon(&state(), Ok(response(true, None, None))).unwrap().pid, 123);
    assert_eq!(
        stop_mcp_daemon(&state(), Ok(response(false, None, None))).unwrap_err().message,
        "failed to stop MCP daemon"
    );
    let config = config_with_ace();
    let off = AppConfig::default();
    match execute_mcp_tool_with_daemon(&off, None) {
        Some(Err(err)) => assert_eq!(err.message, "mcp disabled by config"),
        other => panic!("unexpected outcome: {other:?}"),
    }
    assert!(execute_mcp_tool_with_daemon(&config, None).is_none());
    match execute_mcp_tool_with_daemon(&config, Some(response(true, Some("done"), None))) {
        Some(Ok(text)) => assert_eq!(text, "done"),
        other => panic!("unexpected outcome: {other:?}"),
    }
    match execute_mcp_tool_with_daemon(&config, Some(response(false, None, Some("bad")))) {
        Some(Err(err)) => assert_eq!(err.message, "bad"),
        other => panic!("unexpected outcome: {other:?}"),
    }
    assert_eq!(list_mcp_tools_from_ready_daemon(&off, None).unwrap().len(), 0);
    assert!(list_mcp_tools_from_ready_daemon(&config, None).is_none());
}

#[test]
fn replies_belong_to_requests() {
    let asked = rpc_request(7, "tools/list", object(Vec::new()));
    assert_eq!(
        asked.to_text(),
        "{\"id\":7,\"jsonrpc\":\"2.0\",\"method\":\"tools/list\",\"params\":{}}"
    );
    assert_eq!(
        rpc_notification("notifications/initialized").to_text(),
        "{\"jsonrpc\":\"2.0\",\"method\":\"notifications/initialized\",\"params\":null}"
    );
    let params = initialize_params("1.0");
    assert_eq!(
        params.get("protocolVersion").and_then(|j| j.as_str()),
        Some("2025-03-26")
    );
    let good = Json::read("{\"id\":7,\"result\":{\"x\":1}}").unwrap();
    assert!(rpc_reply(&good, 8, "m").is_none());
    assert_eq!(rpc_reply(&good, 7, "m").unwrap().unwrap().to_text(), "{\"x\":1}");
    let bad = Json::read("{\"id\":7,\"error\":{\"message\":\"nope\"}}").unwrap();
    assert_eq!(
        rpc_reply(&bad, 7, "m").unwrap().unwrap_err().message,
        "MCP request `m` failed: nope"
    );
}

#[test]
fn results_of_calls_become_text() {
    let result = Json::read(
        "{\"content\":[{\"text\":\"one\"},{\"text\":\" \"},{\"type\":\"image\"},null],\"structuredContent\":{\"n\":1}}",
    )
    .unwrap();
    assert_eq!(
        render_call_tool_result(&result),
        "one\n\n{\n  \"type\": \"image\"\n}\n\n{\n  \"n\": 1\n}"
    );
    let bare = object3("a", Json::Null, "b", Json::Null, "c", Json::Null);
    assert_eq!(
        render_call_tool_result(&bare),
        "{\n  \"a\": null,\n  \"b\": null,\n  \"c\": null\n}"
    );
}

#[test]
fn paths_and_servers_of_the_configuration() {
    assert_eq!(mcp_cache_path(&paths()), "/cache/mcp-tools.json");
    assert_eq!(mcp_daemon_pid_path(&paths()), "/cache/mcp-daemon.json");
    assert_eq!(
        expand_mcp_cwd(&Some("~/x".to_string()), &Some("/home/me".to_string())).as_deref(),
        Some("/home/me/x")
    );
    let mut config = config_with_ace();
    let mut off = server("b", &[]);
    off.enabled = false;
    config.mcp.insert("zed", off);
    assert_eq!(enabled_mcp_servers(&config), vec!["ace"]);
    let mut servers = Table::new();
    servers.insert("one", server("x", &[]));
    let compat = McpConfigCompat { mcp: Table::new(), mcp_servers: servers };
    assert!(compat.into_servers().contains_key("one"));
}
