//! Questions: what they are made of, tools, reviews, and what is saved and printed.

use chat_cli::activity::{
    call_requires_prior_read, discovered_tool_names_from_search, start_tool_call,
    summarize_tool_call, summarize_tool_call_activity, tool_result_message, truncate_tool_call_id,
    ToolStart,
};
use chat_cli::actions::{confirm_tool_action, declined_text, ConfirmResult};
use chat_cli::ask::{
    build_input, persist_partial_tool_turn, persist_session, persist_tool_session,
    persisted_turn_messages_for_session, plan_ask, prepare_ask, select_format, select_session_id,
    Attachment, AskTexts, PreparedAsk,
};
use chat_cli::audit::{
    append_audit_event, audit_prompt_kind, audit_prompt_place, auto_confirms, calls_of_kind,
    dangerous_calls, load_audit_prompt, maybe_review_tool_call, merge_reports,
    normalize_audit_verdict, parse_batch_audit_report, print_audit_verdict, review_request,
    review_tool_call_batch, unavailable_batch_audit_decision, AuditPromptKind, ResolvedChatTarget,
    ReviewStart,
};
use chat_cli::chat::{ChatMessage, ChatRequest, ChatResponse};
use chat_cli::cli::{AskArgs, OutputFormat};
use chat_cli::config::{
    AppConfig, ModelConfig, ModelPatchConfig, ProviderConfig, ProviderSecret, SecretsConfig,
};
use chat_cli::context::ContextStatusMode;
use chat_cli::error::{AppError, AppResult};
use chat_cli::json::{array, object, object1, object2, object3, Json};
use chat_cli::media::MessageImage;
use chat_cli::output::{
    ask_output, format_final_ask_output, handle_ask, needs_newline, render_ask_output,
    stream_completed, stream_delta, stream_error, stream_started, AskExecution, AskOutput,
    AskRoute, AssistantMessage,
};
use chat_cli::panels::Selection;
use chat_cli::session::{SessionEvent, SessionMessage, Usage};
use chat_cli::session_log::{append_events, read_events};
use chat_cli::table::Table;
use chat_cli::target::{parse_params, resolve_api_key, resolve_model_use_target};
use chat_cli::tool_loop::{should_stream_tool_round, RoundStep, ToolLoop};
use chat_cli::tools::{ToolCall, ToolResult};

const STATUS: &str = "# Current Status\n\n**Time**: now";

fn text(s: &str) -> Json {
    Json::Str(s.to_string())
}

fn empty_object() -> Json {
    object(Vec::new())
}

fn raw_call(id: &str, name: &str, arguments: &str) -> Json {
    object3(
        "id",
        text(id),
        "type",
        text("function"),
        "function",
        object2("name", text(name), "arguments", text(arguments)),
    )
}

fn test_cli() -> Selection {
    Selection { provider: Some("cpap".to_string()), model: Some("team-gpt-5-4".to_string()) }
}

fn test_config() -> AppConfig {
    let mut config = AppConfig::default();
    config.providers.insert(
        "cpap",
        ProviderConfig {
            kind: "openai_compatible".to_string(),
            default_model: Some("team-gpt-5-4".to_string()),
            ..ProviderConfig::default()
        },
    );
    config.models.insert(
        "team-gpt-5-4",
        ModelConfig {
            provider: "cpap".to_string(),
            remote_name: "team/gpt-5.4".to_string(),
            capabilities: vec!["chat".to_string(), "reasoning".to_string()],
            patches: ModelPatchConfig { system_to_user: Some(true) },
            ..ModelConfig::default()
        },
    );
    config
}

fn secrets() -> SecretsConfig {
    let mut secrets = SecretsConfig::default();
    secrets
        .providers
        .insert("cpap", ProviderSecret { api_key: Some("test-key".to_string()) });
    secrets
}

fn ask_args() -> AskArgs {
    AskArgs {
        session: None,
        new_session: false,
        ephemeral: false,
        temp: false,
        tools: false,
        yes: false,
        stream: false,
        temperature: None,
        max_output_tokens: None,
        params: Vec::new(),
        timeout: None,
        raw_provider_response: false,
        context_status: Some(ContextStatusMode::Off),
    }
}

fn texts(system: Option<&str>) -> AskTexts {
    AskTexts {
        cli_system: system.map(|s| s.to_string()),
        file_system: None,
        status: STATUS.to_string(),
    }
}

fn prepare(
    config: &AppConfig,
    prompt: &str,
    args: &AskArgs,
    system: Option<&str>,
    events: &Option<Vec<SessionEvent>>,
) -> AppResult<PreparedAsk> {
    let input = build_input(
        &Some(prompt.to_string()),
        &None,
        &Vec::new(),
        Ok(Vec::new()),
        &Vec::new(),
    );
    let plan = plan_ask(&test_cli(), None, config, args, None, input)?;
    let session_id = select_session_id(
        args.session.as_deref(),
        args.new_session,
        args.temp,
        args.ephemeral,
        &args.session.iter().cloned().collect(),
        &None,
    )?;
    prepare_ask(
        plan,
        config,
        &secrets(),
        args,
        &session_id,
        events,
        &texts(system),
        &Table::new(),
    )
}

fn reply(content: &str) -> ChatResponse {
    ChatResponse {
        provider_id: "cpap".to_string(),
        model_id: "team-gpt-5-4".to_string(),
        content: content.to_string(),
        finish_reason: "stop".to_string(),
        usage: Usage::default(),
        latency_ms: 1,
        raw: empty_object(),
        tool_calls: Vec::new(),
    }
}

/// What a session holds once events were written to its file and read again.
fn stored(id: &str, events: Option<Vec<SessionEvent>>) -> Option<Vec<SessionEvent>> {
    let written = append_events(id, true, &events.unwrap(), "1");
    Some(read_events(id, &written).unwrap())
}

fn messages_in(events: &Option<Vec<SessionEvent>>) -> Vec<&SessionMessage> {
    events
        .as_ref()
        .unwrap()
        .iter()
        .filter_map(|event| match event {
            SessionEvent::Message(message) => Some(message),
            _ => None,
        })
        .collect()
}

fn roles(prepared: &PreparedAsk) -> Vec<&str> {
    prepared.request.messages.iter().map(|message| message.role.as_str()).collect()
}

#[test]
fn prepare_ask_without_live_mcp_tools_keeps_running() {
    let mut config = test_config();
    config.mcp.insert(
        "ace",
        chat_cli::config::McpServerConfig {
            command: "missing-command".to_string(),
            ..chat_cli::config::McpServerConfig::default()
        },
    );
    let prepared = prepare(&config, "test", &ask_args(), None, &None).unwrap();
    assert_eq!(prepared.request.messages.last().unwrap().role, "user");
    assert_eq!(prepared.request.api_key, "test-key");
}

#[test]
fn persisted_turn_messages_preserves_plain_messages() {
    let prepared = PreparedAsk {
        format: OutputFormat::Text,
        persisted_user_content: "prompt".to_string(),
        user_images: Vec::new(),
        session_id: "sess_1".to_string(),
        session_preamble: Vec::new(),
        request: ChatRequest {
            provider_id: "cpap".to_string(),
            provider: ProviderConfig::default(),
            model_id: "team-gpt-5-4".to_string(),
            model: ModelConfig::default(),
            api_key: String::new(),
            messages: Vec::new(),
            temperature: None,
            max_output_tokens: None,
            params: Vec::new(),
            timeout_secs: None,
            tools: Vec::new(),
        },
        context_status_mode: ContextStatusMode::Off,
    };
    let messages = vec![ChatMessage::plain("user", "prompt".to_string())];
    let persisted = persisted_turn_messages_for_session(&prepared, &messages);
    assert_eq!(persisted.len(), 1);
    assert_eq!(persisted[0].role, "user");
}

#[test]
fn format_final_ask_output_renders_think_blocks_for_text_output() {
    let config = AppConfig::default();
    let result = AskExecution {
        format: OutputFormat::Text,
        output: AskOutput {
            ok: true,
            provider: "deepseek".to_string(),
            model: "deepseek-reasoner-search".to_string(),
            session_id: "sess_test".to_string(),
            message: AssistantMessage {
                role: "assistant".to_string(),
                content: "<think>\n先分析\n</think>\n\n答案".to_string(),
            },
            usage: Usage::default(),
            finish_reason: "stop".to_string(),
            latency_ms: 1,
            raw_provider_response: None,
        },
    };
    let rendered = format_final_ask_output(&config, &result, false).unwrap();
    assert!(rendered.contains("先分析"));
    assert!(rendered.contains("答案"));
    assert!(!rendered.contains("<think>"));
}

#[test]
fn line_output_uses_single_line() {
    let output = AskOutput {
        ok: true,
        provider: "openai".to_string(),
        model: "gpt4".to_string(),
        session_id: "sess_1".to_string(),
        message: AssistantMessage {
            role: "assistant".to_string(),
            content: "hello\nworld".to_string(),
        },
        usage: Usage { input_tokens: Some(1), output_tokens: Some(2), total_tokens: Some(3) },
        finish_reason: "stop".to_string(),
        latency_ms: 10,
        raw_provider_response: None,
    };
    let rendered = render_ask_output(OutputFormat::Line, &output, false).unwrap();
    assert!(!rendered.contains('\n'));
    assert!(rendered.contains("session_id=\"sess_1\""));
    assert_eq!(
        rendered,
        "ok=1 session_id=\"sess_1\" provider=\"openai\" model=\"gpt4\" finish_reason=\"stop\" latency_ms=10 input_tokens=1 output_tokens=2 total_tokens=3 content=\"hello\\nworld\""
    );
}

#[test]
fn output_formats_are_exact() {
    let mut response = reply("hi");
    response.raw = object1("a", array(vec![Json::Null]));
    let output = ask_output(&response, "s", true);
    assert_eq!(
        render_ask_output(OutputFormat::Ndjson, &output, false).unwrap(),
        "{\"ok\":true,\"provider\":\"cpap\",\"model\":\"team-gpt-5-4\",\"session_id\":\"s\",\"message\":{\"role\":\"assistant\",\"content\":\"hi\"},\"usage\":{\"input_tokens\":null,\"output_tokens\":null,\"total_tokens\":null},\"finish_reason\":\"stop\",\"latency_ms\":1,\"raw_provider_response\":{\"a\":[null]}}"
    );
    let pretty = render_ask_output(OutputFormat::Json, &output, false).unwrap();
    let value = serde_json::from_str::<serde_json::Value>(&pretty).unwrap();
    assert_eq!(value["message"]["content"], "hi");
    assert!(pretty.starts_with("{\n  \"ok\": true,\n  \"provider\": \"cpap\",\n"));
    assert!(pretty.contains("  \"message\": {\n    \"role\": \"assistant\",\n    \"content\": \"hi\"\n  },\n"));
    assert!(pretty.ends_with(
        "  \"raw_provider_response\": {\n    \"a\": [\n      null\n    ]\n  }\n}"
    ));
    assert_eq!(
        render_ask_output(OutputFormat::Text, &output, true).unwrap(),
        "{\n  \"a\": [\n    null\n  ]\n}"
    );
    let err = render_ask_output(OutputFormat::Line, &output, true).unwrap_err();
    assert_eq!(err.message, "--raw-provider-response does not support --output line");
    let bare = ask_output(&response, "s", false);
    let err = render_ask_output(OutputFormat::Text, &bare, true).unwrap_err();
    assert_eq!(err.message, "missing raw provider response");
}

#[test]
fn stream_events_are_exact() {
    assert_eq!(
        stream_started("s", "p", "m").to_text(),
        "{\"model\":\"m\",\"provider\":\"p\",\"session_id\":\"s\",\"type\":\"response.started\"}"
    );
    assert!(stream_delta("").is_none());
    assert_eq!(
        stream_delta("x").unwrap().to_text(),
        "{\"delta\":\"x\",\"type\":\"response.delta\"}"
    );
    assert_eq!(
        stream_error("no").to_text(),
        "{\"message\":\"no\",\"type\":\"response.error\"}"
    );
    assert_eq!(
        stream_completed("s", &reply("hi")).to_text(),
        "{\"finish_reason\":\"stop\",\"latency_ms\":1,\"model\":\"team-gpt-5-4\",\"provider\":\"cpap\",\"session_id\":\"s\",\"type\":\"response.completed\",\"usage\":{\"input_tokens\":null,\"output_tokens\":null,\"total_tokens\":null}}"
    );
    assert!(needs_newline("a"));
    assert!(!needs_newline("a\n"));
    assert!(!needs_newline(""));
}

#[test]
fn routes_follow_the_options() {
    let mut config = AppConfig::default();
    assert_eq!(
        handle_ask(false, true, Some(OutputFormat::Ndjson), &config),
        (AskRoute::Tools, Some(OutputFormat::Text))
    );
    config.defaults.tools = Some(false);
    assert_eq!(
        handle_ask(false, true, Some(OutputFormat::Ndjson), &config),
        (AskRoute::Stream, Some(OutputFormat::Ndjson))
    );
    assert_eq!(handle_ask(false, false, None, &config), (AskRoute::Plain, None));
}

fn tool_call(id: &str, name: &str, arguments: Json) -> ToolCall {
    ToolCall { id: id.to_string(), name: name.to_string(), arguments }
}

#[test]
fn parse_audit_report_extracts_json_from_wrapped_content() {
    let calls = vec![tool_call("call_1", "bash", object1("command", text("ls -la")))];
    let mut response = reply(
        "<think>checking</think>\n{\"results\":[{\"id\":\"call_1\",\"verdict\":\"block\",\"message\":\"危险操作\"}]}",
    );
    response.model_id = "audit-model".to_string();
    let batch = parse_batch_audit_report(&response, &calls);
    let report = batch.reports.get("call_1").unwrap();
    assert_eq!(report.verdict, "block");
    assert_eq!(report.message, "危险操作");
    assert_eq!(report.model, "audit-model");
}

#[test]
fn unreadable_reviews_pass_nothing() {
    let calls = vec![tool_call("call_1", "bash", empty_object())];
    let batch = parse_batch_audit_report(&reply("no idea"), &calls);
    let report = batch.reports.get("call_1").unwrap();
    assert_eq!(report.verdict, "warning");
    assert_eq!(report.message, "审核返回异常");
    let silent = parse_batch_audit_report(&reply("{\"results\":[]}"), &calls);
    let report = silent.reports.get("call_1").unwrap();
    assert_eq!(report.verdict, "warning");
    assert_eq!(report.message, "需人工确认");
    assert_eq!(normalize_audit_verdict(Some(" PASS ")), "pass");
    assert_eq!(normalize_audit_verdict(Some("  ")), "warning");
    assert_eq!(normalize_audit_verdict(None), "warning");
    let raw = raw_call("call_1", "bash", "{}");
    assert!(!auto_confirms(&raw, &Some(silent), false));
    let passed = parse_batch_audit_report(
        &reply("[[{\"id\":\"call_1\",\"verdict\":\"pass\",\"message\":\" \"}]]"),
        &calls,
    );
    assert!(auto_confirms(&raw, &Some(passed), false));
    assert!(auto_confirms(&raw, &None, true));
}

#[test]
fn audit_prompt_kind_routes_bash_and_edit_calls() {
    let bash_call = tool_call("call_bash", "Bash", object1("command", text("git status")));
    let edit_call = tool_call("call_edit", "write", object1("path", text("src/main.rs")));
    let other_call = tool_call("call_other", "OtherMutatingTool", empty_object());

    assert_eq!(audit_prompt_kind(&bash_call), AuditPromptKind::Bash);
    assert_eq!(audit_prompt_kind(&edit_call), AuditPromptKind::Edit);
    assert_eq!(audit_prompt_kind(&other_call), AuditPromptKind::Default);
    let calls = vec![bash_call, edit_call, other_call];
    assert_eq!(calls_of_kind(&calls, AuditPromptKind::Edit)[0].id, "call_edit");
}

#[test]
fn load_audit_prompt_reads_configured_prompt_files() {
    let mut config = test_config();
    config.audit.default_prompt_file = Some("/prompts/default.md".to_string());
    config.audit.bash_prompt_file = Some("~/bash.md".to_string());
    config.audit.edit_prompt_file = None;
    let home = Some("/home/me".to_string());
    let place = audit_prompt_place(&config, AuditPromptKind::Default, &home).unwrap();
    assert_eq!(place, "/prompts/default.md");
    assert_eq!(
        load_audit_prompt(&place, Ok("default prompt".to_string())).unwrap(),
        "default prompt"
    );
    assert_eq!(
        audit_prompt_place(&config, AuditPromptKind::Bash, &home).unwrap(),
        "/home/me/bash.md"
    );
    let err = audit_prompt_place(&config, AuditPromptKind::Edit, &home).unwrap_err();
    assert_eq!(err.message, "missing configured audit prompt path `audit.edit_prompt_file`");
    let err = load_audit_prompt("/x", Err("gone".to_string())).unwrap_err();
    assert_eq!(err.message, "failed to read audit prompt file `/x`: gone");
}

fn request() -> ChatRequest {
    ChatRequest {
        provider_id: "openclawbs".to_string(),
        provider: ProviderConfig {
            kind: "openai_compatible".to_string(),
            ..ProviderConfig::default()
        },
        model_id: "sonnet-4-6".to_string(),
        model: ModelConfig {
            provider: "openclawbs".to_string(),
            remote_name: "sonnet-4-6".to_string(),
            display_name: None,
            context_window: None,
            max_output_tokens: None,
            capabilities: vec!["reasoning".to_string()],
            temperature: None,
            reasoning_effort: Some("medium".to_string()),
            patches: ModelPatchConfig::default(),
        },
        api_key: String::new(),
        messages: Vec::new(),
        temperature: None,
        max_output_tokens: None,
        params: Vec::new(),
        timeout_secs: None,
        tools: Vec::new(),
    }
}

#[test]
fn tool_rounds_stream_when_requested() {
    let request = request();
    assert!(should_stream_tool_round(&request, true, 0));
    assert!(should_stream_tool_round(&request, true, 1));
    assert!(!should_stream_tool_round(&request, false, 0));
}

#[test]
fn reviews_are_prepared_or_decided() {
    let mut config = test_config();
    config.audit.enabled = Some(true);
    let raw = vec![
        raw_call("c1", "Bash", "{\"command\":\"rm x\"}"),
        raw_call("c2", "Bash", "{\"command\":\"ls\"}"),
        raw_call("c3", "Edit", "{}"),
    ];
    let calls = dangerous_calls(&config, &raw);
    let ids = calls.iter().map(|c| c.id.as_str()).collect::<Vec<_>>();
    assert_eq!(ids, vec!["c1", "c3"]);
    let env = Table::new();
    match maybe_review_tool_call(&config, &secrets(), &request(), &calls, &env) {
        ReviewStart::Review(target, groups) => {
            assert_eq!(target.model_id, "sonnet-4-6");
            assert_eq!(groups.len(), 2);
            assert_eq!(groups[0].kind, AuditPromptKind::Bash);
            let asked = review_request(
                &target,
                Some(9),
                "sess_1",
                &[ChatMessage::plain("user", "do it".to_string())],
                &groups[0].calls,
                "judge".to_string(),
            );
            assert_eq!(asked.messages.len(), 2);
            assert_eq!(asked.messages[0].content, "judge");
            assert!(asked.messages[1].content.contains("\"session_id\": \"sess_1\""));
            assert!(asked.messages[1].content.contains("\"content_preview\": \"do it\""));
            assert_eq!(asked.max_output_tokens, Some(800));
            let mut all = review_tool_call_batch(
                &target,
                &groups[0].calls,
                &Err(AppError::new(5, "timeout")),
            );
            let report = all.reports.get("c1").unwrap();
            assert_eq!(report.verdict, "unavailable");
            assert_eq!(report.message, "audit agent failed: timeout");
            let other =
                unavailable_batch_audit_decision("p", "m", &groups[1].calls, "no prompt");
            merge_reports(&mut all, other);
            assert!(all.reports.contains_key("c1"));
            assert!(all.reports.contains_key("c3"));
        }
        other => panic!("unexpected start: {other:?}"),
    }
    config.audit.model = Some("ghost".to_string());
    match maybe_review_tool_call(&config, &secrets(), &request(), &calls, &env) {
        ReviewStart::Decided(batch) => {
            assert_eq!(
                batch.reports.get("c3").unwrap().message,
                "audit agent could not be prepared: audit.model `ghost` does not exist"
            );
        }
        other => panic!("unexpected start: {other:?}"),
    }
    assert!(matches!(
        maybe_review_tool_call(&config, &secrets(), &request(), &Vec::new(), &env),
        ReviewStart::Nothing
    ));
    let target = ResolvedChatTarget {
        provider_id: "p".to_string(),
        provider: ProviderConfig::default(),
        model_id: "m".to_string(),
        model: ModelConfig::default(),
        api_key: String::new(),
    };
    let judged = review_tool_call_batch(
        &target,
        &calls,
        &Ok(reply("{\"results\":[{\"id\":\"c1\",\"verdict\":\"pass\",\"message\":\"ok\"}]}")),
    );
    let report = judged.reports.get("c1").unwrap();
    let line = print_audit_verdict("Bash", "call_c1", report);
    assert!(line.contains("\x1b[32mok\x1b[0m"));
    assert!(append_audit_event(false, "Bash", "c1", report, "1").is_none());
    assert!(append_audit_event(true, "Bash", "c1", report, "1").is_some());
}

#[test]
fn execute_tool_as_message_returns_tool_error_content() {
    let raw = object2(
        "id",
        text("call_1"),
        "function",
        object2(
            "name",
            text("read"),
            "arguments",
            text("{\"path\":\"/definitely/missing/file.txt\"}"),
        ),
    );
    let call = match start_tool_call(&raw, &[], &None, false, &None) {
        ToolStart::Run(call) => call,
        other => panic!("unexpected start: {other:?}"),
    };
    let message = tool_result_message(&call, Err(AppError::new(2, "no such file")));
    assert_eq!(message.role, "tool");
    assert_eq!(message.tool_call_id.as_deref(), Some("call_1"));
    assert!(message.content.contains("tool execution error:"));
    let fine = tool_result_message(
        &call,
        Ok(ToolResult { tool_call_id: "call_1".to_string(), content: "text".to_string() }),
    );
    assert_eq!(fine.content, "text");
    assert_eq!(fine.name.as_deref(), Some("read"));
}

#[test]
fn execute_tool_as_message_handles_invalid_tool_call_payload() {
    let raw = object2(
        "id",
        text("call_bad"),
        "function",
        object1("arguments", text("{\"path\":\"foo\"}")),
    );
    let message = match start_tool_call(&raw, &[], &None, false, &None) {
        ToolStart::Answer(message) => message,
        other => panic!("unexpected start: {other:?}"),
    };
    assert_eq!(message.role, "tool");
    assert_eq!(message.tool_call_id.as_deref(), Some("call_bad"));
    assert!(message.content.contains("tool invocation error:"));
}

#[test]
fn execute_bash_tool_declines_when_interactive_confirmation_is_unavailable() {
    let raw = object2(
        "id",
        text("call_bash"),
        "function",
        object2(
            "name",
            text("Bash"),
            "arguments",
            text("{\"command\":\"rm -f /tmp/chat-cli-test\"}"),
        ),
    );
    let call = match start_tool_call(&raw, &[], &None, false, &None) {
        ToolStart::Run(call) => call,
        other => panic!("unexpected start: {other:?}"),
    };
    let asked = confirm_tool_action(false, None, Some("rm -f /tmp/chat-cli-test"));
    let feedback = match asked {
        Some(ConfirmResult::No(feedback)) => feedback,
        other => panic!("unexpected confirm result: {other:?}"),
    };
    let content = declined_text("bash execution", &feedback);
    let message = tool_result_message(
        &call,
        Ok(ToolResult { tool_call_id: call.id.clone(), content }),
    );
    assert_eq!(message.role, "tool");
    assert_eq!(message.tool_call_id.as_deref(), Some("call_bash"));
    assert!(message.content.contains("interactive confirmation unavailable")
        || message.content.contains("user declined the bash execution"));
}

#[test]
fn files_are_read_before_they_are_changed() {
    let edit = tool_call("c", "Edit", object1("file_path", text("a.txt")));
    let cwd = Some("/work".to_string());
    let err = call_requires_prior_read(&[], &edit, &cwd, true, &None).unwrap_err();
    assert_eq!(
        err.message,
        "Edit: file must be read first with Read before modifying `/work/a.txt`"
    );
    assert!(call_requires_prior_read(&[], &edit, &cwd, false, &None).is_ok());
    let mut read = ChatMessage::plain("assistant", String::new());
    read.tool_calls = Some(vec![raw_call("r", "Read", "{\"file_path\":\"/work/a.txt\"}")]);
    assert!(call_requires_prior_read(&[read], &edit, &cwd, true, &None).is_ok());
    let first = tool_call(
        "c",
        "write",
        object2("path", text("a.txt"), "old_string", text("")),
    );
    assert!(
        call_requires_prior_read(&[], &first, &cwd, true, &Some(" \n".to_string())).is_ok()
    );
    assert!(call_requires_prior_read(&[], &first, &cwd, true, &Some("x".to_string())).is_err());
}

#[test]
fn calls_are_told_in_a_few_words() {
    assert_eq!(
        summarize_tool_call_activity(&raw_call("1", "Bash", "{\"command\":\"ls   -la\"}")),
        "Bash: ls -la"
    );
    assert_eq!(
        summarize_tool_call_activity(&raw_call("1", "write", "{\"path\":\"x\"}")),
        "Edit: x"
    );
    assert_eq!(
        summarize_tool_call_activity(&raw_call("1", "todo", "{\"todos\":[1,2]}")),
        "TodoWrite: 2 item(s)"
    );
    assert_eq!(summarize_tool_call_activity(&Json::Null), "unknown_tool");
    let summary = summarize_tool_call(&raw_call("1", "Grep", "{\"pattern\":\"x\"}"));
    assert_eq!(
        summary.to_text(),
        "{\"arguments_preview\":\"{\\\"pattern\\\":\\\"x\\\"}\",\"id\":\"1\",\"name\":\"Grep\",\"parallelism\":\"parallel_safe\",\"requires_confirmation\":false,\"side_effects\":\"read_only\"}"
    );
    let broken = summarize_tool_call(&object1("id", text("9")));
    assert_eq!(
        broken.get("parse_error").and_then(|j| j.as_str()),
        Some("tool_call missing function.name")
    );
    assert_eq!(truncate_tool_call_id("call_abcdefghijk"), "abcdefgh");
    assert_eq!(truncate_tool_call_id("x"), "x");
}

#[test]
fn rounds_load_tools_and_end() {
    let mut config = AppConfig::default();
    config.tools.max_rounds = Some(1);
    config.tools.progressive_loading = Some(true);
    let question = ChatMessage::plain("user", "go".to_string());
    let mut rounds = ToolLoop::start(vec![question], &config);
    assert!(rounds.may_ask());
    assert_eq!(rounds.round_tools(&config, ".agents/skills").len(), 1);
    let search = raw_call("s", "ToolSearch", "{\"query\":\"shell\",\"max_results\":1}");
    assert_eq!(discovered_tool_names_from_search(&search), vec!["Bash"]);
    rounds.take_calls("", &vec![raw_call("s", "ToolSearch", "{\"query\":\"shell\"}")]);
    rounds.note_found(&config, &search);
    rounds.note_found(&config, &search);
    assert_eq!(rounds.loaded, vec!["Bash"]);
    let mut more = ToolLoop::start(Vec::new(), &config);
    assert_eq!(more.take_reply(&reply("done")), RoundStep::Final);
    assert_eq!((more.round, more.messages.len()), (0, 0));
    let mut calling = reply("look");
    calling.tool_calls = vec![raw_call("s", "Read", "{}")];
    assert_eq!(more.take_reply(&calling), RoundStep::Calls);
    assert_eq!((more.round, more.messages[0].content.as_str()), (1, "look"));
    let mut unset = AppConfig::default();
    unset.tools.progressive_loading = None;
    let mut others = ToolLoop::start(Vec::new(), &unset);
    others.note_found(&unset, &search);
    assert!(others.loaded.is_empty());
    assert_eq!(rounds.round_tools(&config, ".agents/skills").len(), 2);
    rounds.answer(ChatMessage::plain("tool", "found".to_string()));
    assert!(!rounds.may_ask());
    assert_eq!(rounds.exceeded().message, "max tool calling rounds (1) exceeded");
    assert_eq!(rounds.turn().len(), 3);
}

#[test]
fn persist_tool_session_replays_tool_messages_on_next_turn() {
    let config = test_config();
    let mut first_args = ask_args();
    first_args.new_session = true;
    let prepared = prepare(&config, "读取 Cargo.toml", &first_args, None, &None).unwrap();
    let mut turn_messages = vec![prepared.request.messages[0].copy()];
    let mut calling = ChatMessage::plain("assistant", String::new());
    calling.tool_calls = Some(vec![raw_call("call_1", "read", "{\"path\":\"Cargo.toml\"}")]);
    turn_messages.push(calling);
    let mut answer = ChatMessage::plain("tool", "[package]\nname = \"chat-cli\"".to_string());
    answer.tool_call_id = Some("call_1".to_string());
    answer.name = Some("read".to_string());
    turn_messages.push(answer);

    let events = persist_tool_session(
        &config,
        first_args.ephemeral,
        &prepared.session_preamble,
        &turn_messages,
        &reply("这是 Cargo 配置文件。"),
        "1",
    );
    let session = stored(&prepared.session_id, events);
    let stored_messages = messages_in(&session);
    assert_eq!(stored_messages.len(), 4);
    assert_eq!(stored_messages[1].role, "assistant");
    assert_eq!(stored_messages[1].tool_calls.len(), 1);
    assert_eq!(stored_messages[2].role, "tool");
    assert_eq!(stored_messages[2].tool_call_id.as_deref(), Some("call_1"));
    assert_eq!(stored_messages[2].name.as_deref(), Some("read"));

    let mut second_args = ask_args();
    second_args.session = Some(prepared.session_id.clone());
    let second = prepare(&config, "继续总结", &second_args, None, &session).unwrap();
    assert_eq!(second.session_id, prepared.session_id);
    assert_eq!(second.request.messages[0].role, "user");
    assert_eq!(second.request.messages[1].role, "assistant");
    assert_eq!(second.request.messages[1].tool_calls.as_ref().map(Vec::len), Some(1));
    assert_eq!(second.request.messages[2].role, "tool");
    assert_eq!(second.request.messages[2].tool_call_id.as_deref(), Some("call_1"));
    assert_eq!(second.request.messages[4].role, "user");
}

#[test]
fn prepare_ask_reuses_persisted_system_prompt_across_turns() {
    let config = test_config();
    let mut first_args = ask_args();
    first_args.new_session = true;
    let first =
        prepare(&config, "第一条消息是啥", &first_args, Some("回答时保持简洁"), &None).unwrap();
    assert_eq!(first.session_preamble.len(), 1);
    assert_eq!(first.request.messages[0].role, "system");
    assert_eq!(first.request.messages[0].content, "回答时保持简洁");

    let events = persist_session(
        &config,
        false,
        &first.session_preamble,
        &first.persisted_user_content,
        &first.user_images,
        &reply("第一条消息是用户问题。"),
        "1",
    );
    let session = stored(&first.session_id, events);
    let stored_roles = messages_in(&session).iter().map(|m| m.role.as_str()).collect::<Vec<_>>();
    assert_eq!(stored_roles, vec!["system", "user", "assistant"]);

    let mut second_args = ask_args();
    second_args.session = Some(first.session_id.clone());
    let second = prepare(&config, "再说一遍", &second_args, None, &session).unwrap();
    assert_eq!(roles(&second), vec!["system", "user", "assistant", "user"]);
    assert_eq!(second.request.messages[0].content, "回答时保持简洁");
    assert!(second.session_preamble.is_empty());
}

#[test]
fn context_status_always_persists_injected_user_message() {
    let config = test_config();
    let mut args = ask_args();
    args.new_session = true;
    args.context_status = Some(ContextStatusMode::Always);
    let prepared = prepare(&config, "看看这个仓库", &args, None, &None).unwrap();
    assert!(prepared.request.messages[0].content.starts_with("# Current Status"));
    assert!(prepared.persisted_user_content.starts_with("# Current Status"));

    let events = persist_session(
        &config,
        false,
        &prepared.session_preamble,
        &prepared.persisted_user_content,
        &prepared.user_images,
        &reply("这是一个 Rust 项目。"),
        "1",
    );
    let session = stored(&prepared.session_id, events);
    assert!(messages_in(&session)[0].content.starts_with("# Current Status"));
}

#[test]
fn context_status_latest_is_filtered_from_persisted_tool_history() {
    let config = test_config();
    let mut args = ask_args();
    args.new_session = true;
    args.tools = true;
    args.context_status = Some(ContextStatusMode::Latest);
    let prepared = prepare(&config, "读取 Cargo.toml", &args, None, &None).unwrap();
    assert!(prepared.request.messages[0].content.starts_with("# Current Status"));

    let mut turn_messages = vec![prepared.request.messages[0].copy()];
    let mut calling = ChatMessage::plain("assistant", String::new());
    calling.tool_calls =
        Some(vec![raw_call("call_1", "Read", "{\"file_path\":\"Cargo.toml\"}")]);
    turn_messages.push(calling);
    let mut answer = ChatMessage::plain("tool", "[package]\nname = \"chat-cli\"".to_string());
    answer.tool_call_id = Some("call_1".to_string());
    answer.name = Some("read".to_string());
    turn_messages.push(answer);

    let persisted = persisted_turn_messages_for_session(&prepared, &turn_messages);
    assert_eq!(persisted[0].content, "读取 Cargo.toml");

    let events = persist_tool_session(
        &config,
        false,
        &prepared.session_preamble,
        &persisted,
        &reply("这是 Cargo 配置文件。"),
        "1",
    );
    let session = stored(&prepared.session_id, events);
    assert_eq!(messages_in(&session)[0].content, "读取 Cargo.toml");

    let mut second_args = ask_args();
    second_args.session = Some(prepared.session_id.clone());
    let second = prepare(&config, "继续总结", &second_args, None, &session).unwrap();
    assert_eq!(second.request.messages[0].content, "读取 Cargo.toml");
}

#[test]
fn context_status_system_once_is_injected_after_system_prompt_only_on_first_turn() {
    let config = test_config();
    let mut first_args = ask_args();
    first_args.new_session = true;
    first_args.context_status = Some(ContextStatusMode::SystemOnce);
    let first =
        prepare(&config, "第一条消息", &first_args, Some("回答时保持简洁"), &None).unwrap();
    assert_eq!(roles(&first), vec!["system", "system", "user"]);
    assert_eq!(first.request.messages[0].content, "回答时保持简洁");
    assert!(first.request.messages[1].content.starts_with("# Current Status"));
    assert_eq!(first.persisted_user_content, "第一条消息");

    let events = persist_session(
        &config,
        false,
        &first.session_preamble,
        &first.persisted_user_content,
        &first.user_images,
        &reply("第一条回复"),
        "1",
    );
    let session = stored(&first.session_id, events);
    let mut second_args = ask_args();
    second_args.session = Some(first.session_id.clone());
    second_args.context_status = Some(ContextStatusMode::SystemOnce);
    let second = prepare(&config, "第二条消息", &second_args, None, &session).unwrap();
    assert_eq!(roles(&second), vec!["system", "system", "user", "assistant", "user"]);
    assert!(second.request.messages[1].content.starts_with("# Current Status"));
    assert_eq!(second.request.messages[4].content, "第二条消息");
    assert!(second.session_preamble.is_empty());
}

#[test]
fn inputs_are_joined_and_checked() {
    let files = vec![Attachment { path: "a.txt".to_string(), content: Ok("body".to_string()) }];
    let input = build_input(
        &Some("ask".to_string()),
        &Some(" \n".to_string()),
        &files,
        Ok(Vec::new()),
        &vec![MessageImage { media_type: "image/png".to_string(), data: String::new() }],
    )
    .unwrap();
    assert_eq!(input.prompt, "ask\n\nFile: a.txt\nbody");
    assert_eq!(input.images.len(), 1);
    let broken = vec![Attachment { path: "b".to_string(), content: Err("gone".to_string()) }];
    let err = build_input(&None, &None, &broken, Ok(Vec::new()), &Vec::new()).unwrap_err();
    assert_eq!(err.message, "failed to read attachment `b`: gone");
    let err = build_input(&None, &None, &Vec::new(), Ok(Vec::new()), &Vec::new()).unwrap_err();
    assert_eq!(
        err.message,
        "chat ask requires PROMPT, --stdin, --attach, --image, or --clipboard-image"
    );
}

#[test]
fn every_refusal_of_a_question_is_told() {
    let config = test_config();
    let mut args = ask_args();
    args.stream = true;
    args.raw_provider_response = true;
    let err = prepare(&config, "x", &args, None, &None).unwrap_err();
    assert_eq!(err.message, "--raw-provider-response is not supported with --stream");
    let mut args = ask_args();
    args.new_session = true;
    args.session = Some("a".to_string());
    let err = prepare(&config, "x", &args, None, &None).unwrap_err();
    assert_eq!(err.message, "--new-session cannot be used together with --session");
    let mut args = ask_args();
    args.params = vec!["novalue".to_string()];
    let err = prepare(&config, "x", &args, None, &None).unwrap_err();
    assert_eq!(err.message, "invalid --param `novalue`, expected KEY=VALUE");
    let err = select_format(Some(OutputFormat::Json), None, None, true).unwrap_err();
    assert_eq!(err.message, "--stream only supports --output text or --output ndjson");
    let err = select_format(None, None, Some(OutputFormat::Ndjson), false).unwrap_err();
    assert_eq!(err.message, "--output ndjson currently requires --stream");
    assert_eq!(select_format(None, None, None, true).unwrap(), OutputFormat::Text);

    let picture = MessageImage { media_type: "image/png".to_string(), data: String::new() };
    let input = build_input(
        &Some("x".to_string()),
        &None,
        &Vec::new(),
        Ok(vec![picture]),
        &Vec::new(),
    );
    let plan = plan_ask(&test_cli(), None, &config, &ask_args(), None, input).unwrap();
    let err = prepare_ask(
        plan,
        &config,
        &secrets(),
        &ask_args(),
        "s",
        &None,
        &texts(None),
        &Table::new(),
    )
    .unwrap_err();
    assert_eq!(
        err.message,
        "model `team-gpt-5-4` does not support image input; add capability `vision` or select a vision-capable model"
    );
    let nobody = Selection { provider: Some("nobody".to_string()), model: None };
    let input =
        build_input(&Some("x".to_string()), &None, &Vec::new(), Ok(Vec::new()), &Vec::new());
    let err = plan_ask(&nobody, None, &config, &ask_args(), None, input).unwrap_err();
    assert_eq!(err.message, "provider `nobody` does not exist");
    assert_eq!(err.code, 7);
}

#[test]
fn nothing_is_saved_of_a_passing_question() {
    let mut config = test_config();
    assert!(persist_partial_tool_turn(&config, true, &Vec::new(), &Vec::new(), "1").is_none());
    config.defaults.auto_save_session = Some(false);
    assert!(persist_session(
        &config,
        false,
        &Vec::new(),
        "x",
        &Vec::new(),
        &reply("y"),
        "1"
    )
    .is_none());
}

#[test]
fn keys_come_from_the_environment_first() {
    let provider = ProviderConfig {
        kind: "openai_compatible".to_string(),
        api_key_env: Some("KEY".to_string()),
        ..ProviderConfig::default()
    };
    let mut env = Table::new();
    assert_eq!(resolve_api_key("cpap", &provider, &secrets(), &env).unwrap(), "test-key");
    env.insert("KEY", "from-env".to_string());
    assert_eq!(resolve_api_key("cpap", &provider, &secrets(), &env).unwrap(), "from-env");
    let err =
        resolve_api_key("x", &provider, &SecretsConfig::default(), &Table::new()).unwrap_err();
    assert_eq!(err.code, 4);
    let local = ProviderConfig {
        kind: "openai_compatible".to_string(),
        base_url: Some("HTTP://LocalHost:8080".to_string()),
        ..ProviderConfig::default()
    };
    assert_eq!(
        resolve_api_key("x", &local, &SecretsConfig::default(), &Table::new()).unwrap(),
        ""
    );
}

#[test]
fn params_are_values_or_texts() {
    let params = parse_params(&vec![
        "a=1".to_string(),
        "b=hello world".to_string(),
        "a=[true]".to_string(),
    ])
    .unwrap();
    assert_eq!(params.len(), 2);
    assert_eq!(params[0].0, "a");
    assert_eq!(params[0].1.to_text(), "[true]");
    assert_eq!(params[1].1.to_text(), "\"hello world\"");
}

#[test]
fn model_targets_are_resolved() {
    let config = test_config();
    assert_eq!(
        resolve_model_use_target(&config, "cpap/team/gpt-5.4").unwrap(),
        ("cpap".to_string(), "team-gpt-5-4".to_string())
    );
    assert_eq!(
        resolve_model_use_target(&config, "team-gpt-5-4").unwrap(),
        ("cpap".to_string(), "team-gpt-5-4".to_string())
    );
    let err = resolve_model_use_target(&config, "cpap/none").unwrap_err();
    assert_eq!(err.message, "model `none` does not exist under provider `cpap`");
    let err = resolve_model_use_target(&config, "none").unwrap_err();
    assert_eq!(err.message, "model `none` does not exist");
}
