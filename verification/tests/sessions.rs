//! Sessions: names, turns, rendering and storage.

use chat_cli::ansi::{CYAN, GREEN, RESET};
use chat_cli::ask::{resolve_session_or_current, select_session_id};
use chat_cli::commands::{current_session_line, render_session, show_session};
use chat_cli::config::{AppConfig, ModelConfig, ModelPatchConfig};
use chat_cli::json::Json;
use chat_cli::media::MessageImage;
use chat_cli::popup::format_model_list_entry;
use chat_cli::session::{
    gc_removes, generate_session_id, is_temp_session, list_sessions, now_rfc3339, parse_timestamp,
    resolve_session_id, set_current_session, short_id, SessionAudit, SessionEvent, SessionMessage,
    SessionMeta, SessionResponse, SessionState, SessionSummary, Usage,
};
use chat_cli::session_log::{append_events, event_from_json, event_to_json, read_events};
use chat_cli::transcript::{
    filter_session_turns_for_repl, format_session_list_entry, render_session_turns,
    session_turns_from_events,
};

fn message(role: &str, content: &str) -> SessionMessage {
    SessionMessage {
        role: role.to_string(),
        content: content.to_string(),
        images: Vec::new(),
        tool_calls: Vec::new(),
        tool_call_id: None,
        name: None,
        created_at: now_rfc3339(7),
    }
}

#[test]
fn select_session_id_accepts_unsaved_current_session_when_explicit() {
    let expected = "sess_unsaved_explicit".to_string();
    let selected = select_session_id(
        Some(expected.as_str()),
        false,
        false,
        false,
        &Vec::new(),
        &Some(expected.clone()),
    )
    .unwrap();
    assert_eq!(selected, expected);
}

#[test]
fn select_session_id_accepts_unsaved_current_session_by_short_id() {
    let expected = generate_session_id();
    let short = short_id(&expected);
    let selected =
        select_session_id(Some(&short), false, false, false, &Vec::new(), &Some(expected.clone()))
            .unwrap();
    assert_eq!(selected, expected);
    let err = select_session_id(Some("zzz"), false, false, false, &Vec::new(), &Some(expected))
        .unwrap_err();
    assert_eq!(err.message, "no session matching `zzz`");
    assert_eq!(err.code, 10);
}

#[test]
fn resolve_render_session_id_uses_current_session_when_omitted() {
    let resolved =
        resolve_session_or_current(None, &Vec::new(), &Some("sess_render".to_string()), "render")
            .unwrap();
    assert_eq!(resolved, "sess_render");
}

#[test]
fn resolve_session_or_current_reports_command_specific_hint() {
    let err = resolve_session_or_current(None, &Vec::new(), &None, "show").unwrap_err();
    assert!(err.message.contains("no active session; use `chat session show <id>`"));
}

#[test]
fn session_turns_group_messages_by_user_turn() {
    let mut tool = message("tool", "tool output");
    tool.tool_call_id = Some("call_1".to_string());
    tool.name = Some("read".to_string());
    let events = vec![
        SessionEvent::Message(message("system", "系统提示")),
        SessionEvent::Message(message("user", "first question")),
        SessionEvent::Message(message("assistant", "first answer")),
        SessionEvent::Message(tool),
        SessionEvent::Message(message("user", "second question")),
        SessionEvent::Message(message("assistant", "second answer")),
    ];

    let turns = session_turns_from_events(&events);
    assert_eq!(turns.len(), 3);
    assert_eq!(turns[0].len(), 1);
    assert_eq!(turns[1].len(), 3);
    assert_eq!(turns[2].len(), 2);
    assert_eq!(turns[0][0].role, "system");
    let repl_turns = filter_session_turns_for_repl(&turns);
    assert_eq!(repl_turns.len(), 2);
    assert_eq!(repl_turns[0][0].role, "user");
    assert_eq!(turns[1][0].content, "first question");
    assert_eq!(turns[2][0].content, "second question");
}

#[test]
fn render_session_turns_formats_user_messages_with_accent_bar() {
    let config = AppConfig::default();
    let turns = vec![vec![message("user", "用户提问"), message("assistant", "助手回答")]];

    let rendered = render_session_turns(&config, &turns, Some(1));
    assert!(rendered.contains(&format!("{GREEN}User{RESET}")));
    assert!(rendered.contains(&format!("{GREEN}│{RESET}")));
    assert!(rendered.contains("用户提问"));
    assert!(rendered.contains(&format!("{CYAN}Assistant{RESET}")));
    assert!(rendered.contains("助手回答"));
}

#[test]
fn render_session_turns_supports_all_turns() {
    let config = AppConfig::default();
    let turns = vec![vec![message("user", "第一条")], vec![message("user", "第二条")]];

    let rendered = render_session_turns(&config, &turns, None);
    assert!(rendered.contains("第一条"));
    assert!(rendered.contains("第二条"));
    let last = render_session_turns(&config, &turns, Some(1));
    assert!(!last.contains("第一条"));
}

#[test]
fn model_list_entry_uses_provider_and_remote_name() {
    let model = ModelConfig {
        provider: "minimax".to_string(),
        remote_name: "MiniMax-M2.7".to_string(),
        display_name: None,
        context_window: None,
        max_output_tokens: None,
        capabilities: Vec::new(),
        temperature: None,
        reasoning_effort: None,
        patches: ModelPatchConfig::default(),
    };
    assert_eq!(format_model_list_entry(&model), "minimax/MiniMax-M2.7");
}

#[test]
fn format_session_list_entry_prioritizes_prompt_and_compacts_metadata() {
    let summary = SessionSummary {
        session_id: "tmp_01KPCJPG".to_string(),
        is_current: true,
        is_temp: true,
        created_at: None,
        updated_at: Some(1776391290),
        first_prompt: Some("测试一下todo工具".to_string()),
        user_messages: 2,
        assistant_messages: 4,
    };

    let rendered = format_session_list_entry(&summary);
    assert!(rendered.starts_with("* tmp_01KPCJPG [temp] \"测试一下todo工具\""));
    assert!(rendered.contains("2u/4a"));
    assert!(rendered.contains("updated=1776391290"));
    assert!(!rendered.contains("created_at="));
    assert!(!rendered.contains("first_prompt="));
}

fn full_message() -> SessionMessage {
    SessionMessage {
        role: "assistant".to_string(),
        content: "line\n\"quoted\"".to_string(),
        images: vec![MessageImage { media_type: "image/png".to_string(), data: "YQ==".to_string() }],
        tool_calls: vec![Json::Bool(true)],
        tool_call_id: Some("call_1".to_string()),
        name: None,
        created_at: "5".to_string(),
    }
}

fn audit() -> SessionAudit {
    SessionAudit {
        provider: "p".to_string(),
        model: "m".to_string(),
        tool_name: Some("Bash".to_string()),
        tool_call_id: None,
        verdict: "pass".to_string(),
        summary: "fine".to_string(),
        findings: vec!["f".to_string()],
        recommendations: Vec::new(),
        latency_ms: 3,
        usage: Usage { input_tokens: Some(1), output_tokens: None, total_tokens: Some(9) },
        created_at: "6".to_string(),
    }
}

fn response() -> SessionResponse {
    SessionResponse {
        provider: "p".to_string(),
        model: "m".to_string(),
        finish_reason: "stop".to_string(),
        latency_ms: 12,
        usage: Usage::default(),
        created_at: "7".to_string(),
    }
}

#[test]
fn what_is_written_to_a_session_reads_back() {
    let events = vec![
        SessionEvent::Message(full_message()),
        SessionEvent::Response(response()),
        SessionEvent::Audit(audit()),
    ];
    let text = append_events("sess_1", true, &events, "4");
    assert_eq!(text.lines().count(), 4);
    let read = read_events("file", &format!("{text}\n  \n")).unwrap();
    assert_eq!(read.len(), 4);
    match &read[0] {
        SessionEvent::Meta(SessionMeta { session_id, created_at }) => {
            assert_eq!(session_id, "sess_1");
            assert_eq!(created_at, "4");
        }
        other => panic!("unexpected event: {other:?}"),
    }
    assert_eq!(format!("{:?}", read[1]), format!("{:?}", events[0]));
    assert_eq!(format!("{:?}", read[2]), format!("{:?}", events[1]));
    assert_eq!(format!("{:?}", read[3]), format!("{:?}", events[2]));
    assert_eq!(append_events("sess_1", false, &Vec::new(), "4"), "");
    let more = append_events("sess_1", false, &vec![SessionEvent::Audit(audit())], "5");
    let read = read_events("file", &format!("{text}{more}")).unwrap();
    assert_eq!(read.len(), 5);
    assert_eq!(format!("{:?}", read[1]), format!("{:?}", events[0]));
    assert_eq!(format!("{:?}", read[4]), format!("{:?}", events[2]));
}

#[test]
fn broken_session_files_are_reported_by_line() {
    let good = append_events("sess_1", true, &Vec::new(), "4");
    let err = read_events("s.jsonl", &format!("{good}\n{{\"type\":\"other\"}}\n")).unwrap_err();
    assert_eq!(
        err.message,
        "failed to parse session file `s.jsonl` at line 3: not a session event"
    );
    let err = read_events("s.jsonl", "{").unwrap_err();
    assert!(err.message.starts_with("failed to parse session file `s.jsonl` at line 1: EOF"));
}

#[test]
fn old_messages_without_new_fields_are_read() {
    let j = Json::read(
        "{\"type\":\"message\",\"role\":\"user\",\"content\":\"hi\",\"created_at\":\"1\"}",
    )
    .unwrap();
    match event_from_json(&j) {
        Some(SessionEvent::Message(m)) => {
            assert_eq!(m.content, "hi");
            assert!(m.images.is_empty() && m.tool_calls.is_empty() && m.name.is_none());
        }
        other => panic!("unexpected event: {other:?}"),
    }
    let meta = SessionEvent::Meta(SessionMeta {
        session_id: "a".to_string(),
        created_at: "b".to_string(),
    });
    assert_eq!(
        event_to_json(&meta).to_text(),
        "{\"created_at\":\"b\",\"session_id\":\"a\",\"type\":\"meta\"}"
    );
}

#[test]
fn a_session_is_shown_event_by_event() {
    let lines = show_session(&vec![
        SessionEvent::Message(full_message()),
        SessionEvent::Response(response()),
        SessionEvent::Audit(audit()),
    ]);
    assert_eq!(
        lines[0],
        "message role=assistant tool_calls=1 tool_call_id=\"call_1\" name=\"\" content=\"line\\n\\\"quoted\\\"\""
    );
    assert_eq!(lines[1], "response provider=p model=m finish_reason=stop latency_ms=12");
    assert_eq!(
        lines[2],
        "audit provider=p model=m tool_name=\"Bash\" tool_call_id=\"\" verdict=\"pass\" summary=\"fine\""
    );
    assert_eq!(lines[3], "summary messages=1 responses=1 audits=1");
}

#[test]
fn rendering_a_session_checks_what_is_asked() {
    let config = AppConfig::default();
    let events = vec![SessionEvent::Message(message("user", "hi"))];
    let err = render_session(&config, "sess_1", &events, Some(0), false).unwrap_err();
    assert_eq!(err.message, "--last must be greater than 0");
    let err = render_session(&config, "sess_1", &Vec::new(), None, false).unwrap_err();
    assert_eq!(err.message, "session `sess_1` has no renderable messages");
    assert!(render_session(&config, "sess_1", &events, None, true).unwrap().contains("hi"));
}

#[test]
fn names_are_resolved_and_shortened() {
    let all = vec!["sess_abc1".to_string(), "tmp_abd2".to_string()];
    assert_eq!(resolve_session_id(&all, "abc").unwrap(), "sess_abc1");
    assert_eq!(resolve_session_id(&all, "tmp_abd2").unwrap(), "tmp_abd2");
    let err = resolve_session_id(&all, "ab").unwrap_err();
    assert_eq!(err.message, "`ab` is ambiguous, matches 2 sessions: abc1, tmp_abd2");
    assert_eq!(short_id("sess_0123456789"), "01234567");
    assert!(is_temp_session("tmp_x"));
    assert_eq!(
        list_sessions(&vec!["b.jsonl".to_string(), "c.txt".to_string(), "d.jsonl".to_string()]),
        vec!["d", "b"]
    );
}

#[test]
fn switching_discards_a_temporary_session() {
    let state =
        SessionState { current_session: Some("tmp_1".to_string()), is_temp: Some(true) };
    let next = set_current_session(&state, Some("sess_2"), false);
    assert_eq!(next.discard.as_deref(), Some("tmp_1"));
    assert_eq!(next.state.current_session.as_deref(), Some("sess_2"));
    assert_eq!(next.state.is_temp, None);
    assert!(set_current_session(&state, Some("tmp_1"), true).discard.is_none());
    assert_eq!(current_session_line(&state), "tmp_1 [temp]");
    assert_eq!(current_session_line(&SessionState::default()), "no active session");
    assert!(gc_removes(&state, "tmp_9", 5));
    assert!(!gc_removes(&state, "tmp_1", 5));
    assert!(gc_removes(&state, "sess_9", 0));
}

#[test]
fn times_read_back() {
    assert_eq!(parse_timestamp(&now_rfc3339(1700000000)), Some(1700000000));
    assert_eq!(parse_timestamp("yesterday"), None);
}
