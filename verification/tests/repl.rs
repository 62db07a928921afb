//! The interactive mode: commands, popup, editor, screen and panels.

use chat_cli::activity::render_tool_call_summary;
use chat_cli::ansi::{display_width, visible_width, CYAN, DIM, RESET};
use chat_cli::ask::{ensure_repl_session_id, requested_session_id};
use chat_cli::composer::{
    join_inline_prompt_segments, repl_attachment_badges, repl_composer_view, wrap_editor_input,
};
use chat_cli::config::{AppConfig, ModelConfig, ModelPatchConfig, ProviderConfig};
use chat_cli::context::ContextStatusMode;
use chat_cli::editor::{
    accept_repl_popup_selection, clear_repl_text_input, enter_repl_slash_mode, handle_pasted_text,
    handle_repl_event, manual_repl_slash_prompt, materialize_repl_prompt,
    move_repl_popup_selection, sync_repl_popup_selection, CollapsedPaste, KeyMods, ReplEditorDraft,
    ReplEvent, ReplKey, ReplStep,
};
use chat_cli::json::{object2, object3, Json};
use chat_cli::media::MessageImage;
use chat_cli::panels::{
    build_repl_status_panel, push_repl_panel, render_repl_transcript, sync_repl_todo_panel,
    ReplRuntimePanel, ReplRuntimePanelKind, ReplState, Selection,
};
use chat_cli::popup::{
    filtered_repl_slash_commands, parse_repl_slash_command, popup_window_start, repl_popup_model,
    visible_repl_slash_commands, ReplPopupAction, ReplPopupItem, ReplPopupModel, ReplSlashCommand,
    ReplSlashMode, SessionChoices,
};
use chat_cli::repl::{
    handle_repl_audit_command, handle_repl_bash_command, handle_repl_clear_command,
    handle_repl_directive, handle_repl_model_command, handle_repl_new_session,
    handle_repl_session_command, handle_repl_tool_search_command, note_failed_turn,
    print_repl_model_choices, read_repl_prompt, start_repl, switch_session, turn_options,
    turn_route, BashCommand, PromptStep, ReplDirective, ReplInput, ReplSessionCommand,
};
use chat_cli::screen::{
    build_repl_status_bar, clipped_repl_transcript_lines, compute_repl_layout, full_width_rule,
    max_repl_popup_height, pad_status_bar_plain, render_repl_editor, repl_slash_popup_view,
    resolve_transcript_scroll, transcript_page_step, transcript_screen_lines,
    transcript_scroll_page_down, transcript_scroll_page_up, ReplScreenView,
    REPL_MIN_TRANSCRIPT_HEIGHT,
};
use chat_cli::session::{list_session_summaries, SessionEvent, SessionMessage, StoredSession};
use chat_cli::transcript::render_session_turns_with_width;

fn text(s: &str) -> Json {
    Json::Str(s.to_string())
}

fn model(provider: &str, remote_name: &str) -> ModelConfig {
    ModelConfig {
        provider: provider.to_string(),
        remote_name: remote_name.to_string(),
        display_name: None,
        context_window: None,
        max_output_tokens: None,
        capabilities: vec!["chat".to_string(), "reasoning".to_string()],
        temperature: None,
        reasoning_effort: None,
        patches: ModelPatchConfig { system_to_user: Some(true) },
    }
}

fn test_cli() -> Selection {
    Selection { provider: Some("cpap".to_string()), model: Some("team-gpt-5-4".to_string()) }
}

fn test_config() -> AppConfig {
    let mut config = AppConfig::default();
    config.providers.insert(
        "cpap",
        ProviderConfig {
            kind: "openai_compatible".to_string(),
            default_model: Some("team-gpt-5-4".to_string()),
            ..ProviderConfig::default()
        },
    );
    config.providers.insert(
        "deepseek",
        ProviderConfig {
            kind: "openai_compatible".to_string(),
            default_model: Some("deepseek-reasoner-search".to_string()),
            ..ProviderConfig::default()
        },
    );
    config.models.insert("team-gpt-5-4", model("cpap", "team/gpt-5.4"));
    config
        .models
        .insert("deepseek-reasoner-search", model("deepseek", "deepseek-reasoner-search"));
    config
}

fn message(role: &str, content: &str) -> SessionMessage {
    SessionMessage {
        role: role.to_string(),
        content: content.to_string(),
        images: Vec::new(),
        tool_calls: Vec::new(),
        tool_call_id: None,
        name: None,
        created_at: "1".to_string(),
    }
}

fn image() -> MessageImage {
    MessageImage { media_type: "image/png".to_string(), data: "abc".to_string() }
}

fn alpha_session() -> SessionChoices {
    let sessions = vec![StoredSession {
        session_id: "sess_alpha".to_string(),
        events: vec![SessionEvent::Message(message("user", "hello"))],
    }];
    SessionChoices { summaries: list_session_summaries(&sessions, None), current: None }
}

fn no_sessions() -> SessionChoices {
    SessionChoices { summaries: Vec::new(), current: None }
}

fn popup_of(draft: &ReplEditorDraft, sessions: &SessionChoices) -> Option<ReplPopupModel> {
    repl_popup_model(draft.slash_mode, &draft.buffer, &test_config(), sessions)
}

const PLAIN: KeyMods = KeyMods { control: false, shift: false, other: false };
const CONTROL: KeyMods = KeyMods { control: true, shift: false, other: false };

fn press(draft: &mut ReplEditorDraft, key: ReplKey) -> ReplStep {
    handle_repl_event(draft, None, ReplEvent::Key(key, PLAIN))
}

#[test]
fn visible_repl_commands_match_new_command_set() {
    let commands = visible_repl_slash_commands()
        .into_iter()
        .map(|command| command.command())
        .collect::<Vec<_>>();
    assert!(commands.contains(&"model"));
    assert!(commands.contains(&"sessions"));
    assert!(commands.contains(&"audit"));
    assert!(commands.contains(&"tool-search"));
    assert!(!commands.contains(&"provider"));
    assert!(!commands.contains(&"tools"));
    assert!(!commands.contains(&"stream"));
}

#[test]
fn parse_repl_slash_command_rejects_commands_alias() {
    assert!(parse_repl_slash_command("/commands").is_none());
    assert!(parse_repl_slash_command("/help").is_none());
}

#[test]
fn filtered_repl_slash_commands_show_all_when_query_empty() {
    let commands = filtered_repl_slash_commands("")
        .into_iter()
        .map(|command| command.command())
        .collect::<Vec<_>>();
    assert!(commands.contains(&"status"));
    assert!(commands.contains(&"sessions"));
    assert!(commands.contains(&"tool-search"));
}

#[test]
fn filtered_repl_slash_commands_filter_by_prefix() {
    let commands = filtered_repl_slash_commands("st")
        .into_iter()
        .map(|command| command.command())
        .collect::<Vec<_>>();
    assert!(commands.contains(&"status"));
    assert!(!commands.contains(&"clear"));
}

#[test]
fn filtered_repl_slash_commands_matches_model_prefix() {
    let commands = filtered_repl_slash_commands("mo")
        .into_iter()
        .map(|command| command.command())
        .collect::<Vec<_>>();
    assert!(commands.contains(&"model"));
    assert!(!commands.contains(&"sessions"));
}

#[test]
fn repl_popup_model_shows_session_choices_for_session_input() {
    let draft =
        ReplEditorDraft { slash_mode: Some(ReplSlashMode::Session), ..ReplEditorDraft::default() };
    let popup = popup_of(&draft, &alpha_session()).unwrap();
    let labels = popup.items.iter().map(|item| item.label.as_str()).collect::<Vec<_>>();
    assert!(labels.contains(&"list"));
    assert!(labels.contains(&"current") || labels.iter().any(|label| label.starts_with("alpha")));
}

#[test]
fn repl_popup_accepts_model_command_into_second_stage() {
    let draft = ReplEditorDraft { buffer: "/mo".to_string(), ..ReplEditorDraft::default() };
    let popup = popup_of(&draft, &no_sessions()).unwrap();
    let action = accept_repl_popup_selection(&draft, Some(&popup)).unwrap();
    match action {
        ReplPopupAction::EnterSlashMode(mode) => assert_eq!(mode, ReplSlashMode::Model),
        other => panic!("unexpected popup action: {other:?}"),
    }
}

#[test]
fn repl_popup_accepts_session_choice_as_submit_prompt() {
    let mut draft =
        ReplEditorDraft { slash_mode: Some(ReplSlashMode::Session), ..ReplEditorDraft::default() };
    let popup = popup_of(&draft, &alpha_session()).unwrap();
    draft.popup_selected = popup
        .items
        .iter()
        .position(|item| item.label.starts_with("alpha") || item.label.starts_with("sess_alpha"))
        .unwrap();
    let action = accept_repl_popup_selection(&draft, Some(&popup)).unwrap();
    match action {
        ReplPopupAction::SubmitPrompt(prompt) => {
            assert!(prompt.starts_with("/sessions switch "))
        }
        other => panic!("unexpected popup action: {other:?}"),
    }
}

#[test]
fn enter_repl_slash_mode_clears_input_and_tracks_mode() {
    let mut draft = ReplEditorDraft {
        buffer: "stale".to_string(),
        cursor: 5,
        ..ReplEditorDraft::default()
    };
    enter_repl_slash_mode(&mut draft, ReplSlashMode::Model);
    assert_eq!(draft.slash_mode, Some(ReplSlashMode::Model));
    assert!(draft.buffer.is_empty());
    assert_eq!(draft.cursor, 0);
}

#[test]
fn repl_popup_view_scrolls_to_keep_selected_item_visible() {
    let popup = ReplPopupModel {
        signature: "/model ".to_string(),
        items: (0..12)
            .map(|index| ReplPopupItem {
                label: format!("item-{index}"),
                detail: "detail".to_string(),
                action: ReplPopupAction::SubmitPrompt(format!("/model item-{index}")),
            })
            .collect(),
    };
    let draft = ReplEditorDraft { popup_selected: 9, ..ReplEditorDraft::default() };
    let view = repl_slash_popup_view(Some(&popup), &draft, 120, 4);
    assert_eq!(view.lines.len(), 4);
    assert!(view.lines.iter().any(|line| line.contains("item-9")));
    assert!(!view.lines.iter().any(|line| line.contains("item-0")));
}

#[test]
fn repl_popup_height_is_capped_to_preserve_transcript_space() {
    let popup_height = max_repl_popup_height(20, 5);
    assert_eq!(popup_height, 9);
    let layout = compute_repl_layout(20, 5, popup_height);
    assert_eq!(layout.transcript_height, REPL_MIN_TRANSCRIPT_HEIGHT);
    assert_eq!(layout.popup_height, 9);
}

#[test]
fn repl_status_panel_contains_runtime_configuration() {
    let state = ReplState {
        stream: true,
        tools: false,
        context_status: ContextStatusMode::Off,
        provider_override: Some("deepseek".to_string()),
        model_override: Some("deepseek-reasoner-search".to_string()),
        panels: Vec::new(),
        transient_panel: None,
    };
    let panel = build_repl_status_panel(&test_cli(), &test_config(), "sess_test_repl", &state);
    assert_eq!(panel.kind, ReplRuntimePanelKind::Status);
    assert!(panel.body.contains("provider: deepseek"));
    assert!(panel.body.contains("model: deepseek-reasoner-search"));
    assert!(panel.body.contains("tools: off"));
    assert!(panel.body.contains("context_status: off"));
    assert!(panel.body.contains("/model"));
}

fn panel(kind: ReplRuntimePanelKind, title: &str, body: &str) -> ReplRuntimePanel {
    ReplRuntimePanel { kind, title: title.to_string(), body: body.to_string() }
}

#[test]
fn repl_runtime_transcript_appends_panels_after_history() {
    let panels = vec![panel(ReplRuntimePanelKind::Error, "Error", "boom")];
    let transcript = render_repl_transcript("", &panels, &None);
    assert!(transcript.contains("Error"));
    assert!(transcript.contains("boom"));
    let after = render_repl_transcript("history", &panels, &None);
    assert!(after.starts_with("history\n\n"));
    assert!(after.ends_with(&transcript));
}

#[test]
fn repl_transient_panel_is_rendered_separately() {
    let panels = vec![panel(ReplRuntimePanelKind::Error, "Error", "persistent")];
    let transient = panel(ReplRuntimePanelKind::Status, "Status", "temporary");
    let transcript = render_repl_transcript("", &panels, &Some(transient));
    assert!(transcript.contains("persistent"));
    assert!(transcript.contains("temporary"));
}

#[test]
fn repl_transcript_renders_horizontal_rule_to_requested_width() {
    let turns = vec![vec![message("assistant", "---")]];
    let rendered = render_session_turns_with_width(&test_config(), &turns, None, Some(24));
    let plain = rendered
        .replace(DIM, "")
        .replace(CYAN, "")
        .replace(RESET, "")
        .replace("Assistant\n", "");
    assert!(plain.contains(&"─".repeat(24)));
}

fn todo_call() -> Json {
    object3(
        "id",
        text("call_todo"),
        "type",
        text("function"),
        "function",
        object2(
            "name",
            text("TodoWrite"),
            "arguments",
            text("{\"todos\":[{\"title\":\"Implement UI\",\"details\":\"Create the initial UI implementation for the REPL todo panel.\",\"status\":\"in_progress\"},{\"title\":\"Run tests\",\"details\":\"Run the full test suite after the UI update.\",\"status\":\"pending\"}]}"),
        ),
    )
}

#[test]
fn sync_repl_todo_panel_loads_latest_todos_from_session_history() {
    let mut stored = message("assistant", "");
    stored.tool_calls = vec![todo_call()];
    let events = Some(vec![SessionEvent::Message(stored)]);
    let mut state = ReplState::default();
    sync_repl_todo_panel(&mut state, &events);
    sync_repl_todo_panel(&mut state, &events);
    let transcript = render_repl_transcript("", &state.panels, &None);
    assert_eq!(
        state.panels.iter().filter(|p| p.kind == ReplRuntimePanelKind::Todo).count(),
        1
    );
    assert!(transcript.contains("• Updated Plan"));
    assert!(transcript.contains("Create the initial UI implementation for the REPL todo panel."));
    assert!(transcript.contains("□ Implement UI"));
    assert!(transcript.contains("□ Run tests"));
}

#[test]
fn full_width_rule_uses_visible_terminal_width() {
    let rendered = full_width_rule(20);
    assert_eq!(visible_width(&rendered), 20);
}

#[test]
fn transcript_screen_lines_wrap_long_plain_lines() {
    let lines = transcript_screen_lines("abcdefgh", 4);
    assert_eq!(lines, vec!["abcd".to_string(), "efgh".to_string()]);
}

#[test]
fn transcript_screen_lines_wrap_ansi_and_wide_text() {
    let transcript = format!("{DIM}你好abcd{RESET}");
    let lines = transcript_screen_lines(&transcript, 4);
    assert_eq!(lines.len(), 2);
    assert_eq!(visible_width(&lines[0]), 4);
    assert_eq!(visible_width(&lines[1]), 4);
    assert!(lines[0].starts_with(DIM));
    assert!(lines[1].starts_with(DIM));
    assert!(lines.iter().all(|line| line.ends_with(RESET)));
}

fn call(id: &str, name: &str, arguments: &str) -> Json {
    object3(
        "id",
        text(id),
        "type",
        text("function"),
        "function",
        object2("name", text(name), "arguments", text(arguments)),
    )
}

#[test]
fn render_tool_call_summary_uses_multiple_lines() {
    let raw_calls = vec![
        call(
            "call_webfetch",
            "WebFetch",
            "{\"url\":\"https://openai.com/index/introducing-gpt-5-4-and-more\"}",
        ),
        call(
            "call_bash",
            "Bash",
            "{\"command\":\"echo '=== Testing grok-search web_search ==='\"}",
        ),
    ];

    let rendered = render_tool_call_summary(1, &raw_calls, 28);
    let plain = rendered.replace(DIM, "").replace(RESET, "");

    assert!(plain.starts_with("[tools 1]"));
    assert!(plain.contains("\n  • WebFetch:"));
    assert!(plain.contains("\n  • Bash:"));
    assert!(rendered.lines().count() >= 3);
}

#[test]
fn repl_composer_view_does_not_render_status_inside_input_box() {
    let draft = ReplEditorDraft {
        status: Some("Removed one image. 0 remaining.".to_string()),
        slash_mode: Some(ReplSlashMode::Model),
        ..ReplEditorDraft::default()
    };
    let view = repl_composer_view(&draft, 80, 8);
    assert_eq!(view.lines.len(), 1);
    assert!(view.lines[0].contains("Filter models."));
    assert!(!view.lines[0].contains("Removed one image."));
}

#[test]
fn display_width_counts_wide_chars() {
    assert_eq!(display_width("你好"), 4);
    assert_eq!(display_width("你a"), 3);
}

#[test]
fn wrap_editor_input_tracks_wide_char_cursor_columns() {
    let wrapped = wrap_editor_input("你a", '你'.len_utf8(), 10);
    assert_eq!(wrapped.lines, vec!["你a"]);
    assert_eq!(wrapped.cursor_row, 0);
    assert_eq!(wrapped.cursor_col, 2);
}

#[test]
fn wrap_editor_input_moves_cursor_to_next_line_after_newline() {
    let wrapped = wrap_editor_input("ab\n", 3, 10);
    assert_eq!(wrapped.lines, vec!["ab", ""]);
    assert_eq!(wrapped.cursor_row, 1);
    assert_eq!(wrapped.cursor_col, 0);
}

#[test]
fn resolve_transcript_scroll_defaults_to_bottom() {
    assert_eq!(resolve_transcript_scroll(100, 10, usize::MAX), 90);
    assert_eq!(resolve_transcript_scroll(5, 10, usize::MAX), 0);
}

#[test]
fn manual_repl_slash_prompt_requires_query_for_command_mode() {
    let draft =
        ReplEditorDraft { slash_mode: Some(ReplSlashMode::Commands), ..ReplEditorDraft::default() };
    assert!(manual_repl_slash_prompt(&draft).is_none());
}

#[test]
fn manual_repl_slash_prompt_requires_query_for_toggle_modes() {
    let draft =
        ReplEditorDraft { slash_mode: Some(ReplSlashMode::Audit), ..ReplEditorDraft::default() };
    assert!(manual_repl_slash_prompt(&draft).is_none());
}

#[test]
fn repl_popup_model_shows_default_items_for_empty_session_query() {
    let draft =
        ReplEditorDraft { slash_mode: Some(ReplSlashMode::Session), ..ReplEditorDraft::default() };
    let popup = popup_of(&draft, &no_sessions()).unwrap();
    assert!(!popup.items.is_empty());
}

#[test]
fn large_pasted_text_is_collapsed_into_badge_payload() {
    let mut draft = ReplEditorDraft::default();
    handle_pasted_text(&mut draft, "a\nb\nc\nd\ne\nf\ng\nh\ni".to_string());
    assert!(draft.buffer.is_empty());
    assert_eq!(draft.collapsed_pastes.len(), 1);
    assert_eq!(materialize_repl_prompt(&draft), "a\nb\nc\nd\ne\nf\ng\nh\ni");
    assert!(repl_attachment_badges(&draft).contains("[Pasted text #1 +8 lines]"));
    assert!(draft.status.is_none());
}

#[test]
fn clear_repl_text_input_keeps_images_but_drops_text_payloads() {
    let mut draft = ReplEditorDraft {
        buffer: "hello".to_string(),
        images: vec![image()],
        collapsed_pastes: vec![CollapsedPaste { text: "world".to_string(), line_count: 1 }],
        status: None,
        cursor: 5,
        transcript_scroll: 0,
        esc_pending: true,
        ..ReplEditorDraft::default()
    };
    clear_repl_text_input(&mut draft);
    assert_eq!(draft.buffer, "");
    assert_eq!(draft.cursor, 0);
    assert_eq!(draft.collapsed_pastes.len(), 0);
    assert_eq!(draft.images.len(), 1);
    assert!(!draft.esc_pending);
}

#[test]
fn join_inline_prompt_segments_compacts_badges_and_text() {
    let inline = join_inline_prompt_segments(&[
        Some("[Image #1]".to_string()),
        Some("[Pasted text #2 +5 lines]".to_string()),
        Some("你好".to_string()),
    ]);
    assert_eq!(inline, "[Image #1] [Pasted text #2 +5 lines] 你好");
}

#[test]
fn repl_composer_view_keeps_attachment_badges_inline() {
    let draft = ReplEditorDraft {
        buffer: "你好".to_string(),
        images: vec![image()],
        collapsed_pastes: Vec::new(),
        status: None,
        cursor: "你好".len(),
        transcript_scroll: 0,
        esc_pending: false,
        ..ReplEditorDraft::default()
    };
    let view = repl_composer_view(&draft, 80, 8);
    assert!(view.lines[0].contains("❯ [Image #1] 你好"));
}

#[test]
fn requested_session_id_prefers_temp_over_new_session() {
    let session_id = requested_session_id(true, true, false).unwrap();
    assert!(session_id.starts_with("tmp_"));
}

#[test]
fn ensure_repl_session_id_keeps_unsaved_current_session() {
    let kept =
        ensure_repl_session_id("sess_unsaved", false, &Some("sess_unsaved".to_string()), false);
    assert!(!kept.replaced);
    assert_eq!(kept.session_id, "sess_unsaved");
    assert_eq!(kept.activate, None);
}

#[test]
fn ensure_repl_session_id_replaces_deleted_session() {
    let kept = ensure_repl_session_id("sess_deleted", false, &None, false);
    assert!(kept.replaced);
    assert_ne!(kept.session_id, "sess_deleted");
    assert!(kept.session_id.starts_with("sess_"));
    assert_eq!(kept.activate, Some(false));
}

#[test]
fn repl_audit_command_updates_config() {
    let mut config = AppConfig::default();
    let (save, said) = handle_repl_audit_command(&mut config, "on");
    assert!(save);
    assert_eq!(said, "audit enabled");
    assert_eq!(config.audit.enabled, Some(true));
    let (save, said) = handle_repl_audit_command(&mut config, "");
    assert!(!save);
    assert_eq!(said, "audit: on");
    let (_, said) = handle_repl_audit_command(&mut config, "maybe");
    assert_eq!(said, "usage: /audit [on|off|status]");
}

#[test]
fn repl_tool_search_command_updates_config() {
    let mut config = AppConfig::default();
    let (save, _) = handle_repl_tool_search_command(&mut config, "on");
    assert!(save);
    assert_eq!(config.tools.progressive_loading, Some(true));
    let (_, said) = handle_repl_tool_search_command(&mut config, "off");
    assert_eq!(said, "tool-search disabled");
    assert_eq!(config.tools.progressive_loading, Some(false));
}

#[test]
fn repl_session_command_switches_session() {
    let all = vec!["sess_alpha".to_string()];
    match handle_repl_session_command("switch alpha") {
        ReplSessionCommand::Switch(id) => {
            let next = switch_session(&all, &id, false).unwrap();
            assert_eq!(next.session_id, "sess_alpha");
            assert!(!next.temp);
            assert_eq!(next.message, "switched to alpha");
        }
        other => panic!("unexpected command: {other:?}"),
    }
    assert!(matches!(handle_repl_session_command(""), ReplSessionCommand::List));
    assert!(matches!(handle_repl_session_command("current"), ReplSessionCommand::Current));
    assert!(matches!(handle_repl_session_command("drop"), ReplSessionCommand::Usage));
    assert!(switch_session(&all, "beta", false).is_err());
}

#[test]
fn repl_model_command_updates_runtime_target() {
    let config = test_config();
    let mut state = ReplState::default();
    let input = ReplInput {
        prompt: "/model deepseek/deepseek-reasoner-search".to_string(),
        images: Vec::new(),
    };
    match handle_repl_directive(&input) {
        ReplDirective::Command(ReplSlashCommand::Model, rest) => {
            handle_repl_model_command(&test_cli(), &config, &mut state, &rest).unwrap();
        }
        other => panic!("unexpected directive: {other:?}"),
    }
    assert_eq!(state.provider_override.as_deref(), Some("deepseek"));
    assert_eq!(state.model_override.as_deref(), Some("deepseek-reasoner-search"));
    let said = handle_repl_model_command(&test_cli(), &config, &mut state, "reset").unwrap();
    assert_eq!(said, vec!["model reset to deepseek-reasoner-search"]);
    assert_eq!(state.model_override, None);
    assert!(handle_repl_model_command(&test_cli(), &config, &mut state, "nope").is_err());
}

#[test]
fn repl_unknown_slash_command_is_sent_to_model() {
    let input = ReplInput { prompt: "/explain /tmp".to_string(), images: Vec::new() };
    assert!(matches!(handle_repl_directive(&input), ReplDirective::Submit));
    assert_eq!(input.prompt, "/explain /tmp");
    let nothing = ReplInput { prompt: "  ".to_string(), images: Vec::new() };
    assert!(matches!(handle_repl_directive(&nothing), ReplDirective::Continue));
    let leave = ReplInput { prompt: "/exit".to_string(), images: Vec::new() };
    assert!(matches!(handle_repl_directive(&leave), ReplDirective::Exit));
    let with_image = ReplInput { prompt: "/exit".to_string(), images: vec![image()] };
    assert!(matches!(handle_repl_directive(&with_image), ReplDirective::Submit));
}

#[test]
fn model_choices_mark_the_current_one() {
    let lines = print_repl_model_choices(&test_cli(), &test_config(), &ReplState::default(), None);
    assert_eq!(
        lines,
        vec!["model team-gpt-5-4", "provider cpap", "* cpap/team/gpt-5.4 [id=team-gpt-5-4]"]
    );
    let other = print_repl_model_choices(
        &test_cli(),
        &test_config(),
        &ReplState::default(),
        Some("nobody"),
    );
    assert_eq!(other[2], "no models available");
}

#[test]
fn bash_commands_are_told_apart() {
    assert!(matches!(handle_repl_bash_command("help"), Ok(BashCommand::Help)));
    assert!(matches!(handle_repl_bash_command("sessions"), Ok(BashCommand::Sessions)));
    match handle_repl_bash_command("input s1 echo hi") {
        Ok(BashCommand::Input(id, text)) => {
            assert_eq!(id, "s1");
            assert_eq!(text, "echo hi");
        }
        other => panic!("unexpected command: {other:?}"),
    }
    let err = handle_repl_bash_command("input s1").unwrap_err();
    assert_eq!(err.message, "usage: /bash input <session_id> <text>");
    assert!(matches!(handle_repl_bash_command("dance"), Ok(BashCommand::Unknown)));
}

#[test]
fn new_sessions_take_the_wanted_form() {
    let temp = handle_repl_new_session("temp", false).unwrap();
    assert!(temp.temp && temp.session_id.starts_with("tmp_"));
    let plain = handle_repl_new_session("", false).unwrap();
    assert!(!plain.temp && plain.session_id.starts_with("sess_"));
    assert!(handle_repl_new_session("other", false).is_none());
    let cleared = handle_repl_clear_command("sess_0123456789", true);
    assert!(cleared.session_id.starts_with("tmp_"));
    assert!(cleared.message.starts_with("cleared session 01234567; new session tmp_"));
}

#[test]
fn several_lines_end_with_a_dot() {
    let mut lines = Vec::new();
    assert!(matches!(read_repl_prompt(&mut lines, "one\r\n"), PromptStep::More));
    assert!(matches!(read_repl_prompt(&mut lines, "/exit\n"), PromptStep::More));
    match read_repl_prompt(&mut lines, ".\n") {
        PromptStep::Done(text) => assert_eq!(text, "one\n/exit"),
        other => panic!("unexpected step: {other:?}"),
    }
    let mut none = Vec::new();
    assert!(matches!(read_repl_prompt(&mut none, "/quit\n"), PromptStep::Done(_)));
}

#[test]
fn typing_and_deleting_follow_the_cursor() {
    let mut draft = ReplEditorDraft::default();
    for c in "a你b".chars() {
        press(&mut draft, ReplKey::Char(c));
    }
    assert_eq!(draft.buffer, "a你b");
    assert_eq!(draft.cursor, 5);
    press(&mut draft, ReplKey::Left);
    press(&mut draft, ReplKey::Left);
    assert_eq!(draft.cursor, 1);
    press(&mut draft, ReplKey::Delete);
    assert_eq!(draft.buffer, "ab");
    press(&mut draft, ReplKey::Backspace);
    assert_eq!(draft.buffer, "b");
    assert_eq!(draft.cursor, 0);
    press(&mut draft, ReplKey::End);
    handle_repl_event(&mut draft, None, ReplEvent::Key(ReplKey::Char('j'), CONTROL));
    press(&mut draft, ReplKey::Char('x'));
    assert_eq!(draft.buffer, "b\nx");
    press(&mut draft, ReplKey::Home);
    assert_eq!(draft.cursor, 2);
}

#[test]
fn escape_clears_on_the_second_press() {
    let mut draft = ReplEditorDraft { buffer: "abc".to_string(), cursor: 3, ..Default::default() };
    press(&mut draft, ReplKey::Esc);
    assert_eq!(draft.buffer, "abc");
    assert_eq!(draft.status.as_deref(), Some("Press Esc again to clear the input."));
    press(&mut draft, ReplKey::Esc);
    assert_eq!(draft.buffer, "");
    assert_eq!(draft.status.as_deref(), Some("Input cleared."));
}

#[test]
fn backspace_takes_away_what_was_attached_last() {
    let mut draft = ReplEditorDraft {
        images: vec![image()],
        collapsed_pastes: vec![CollapsedPaste { text: "x".to_string(), line_count: 1 }],
        slash_mode: Some(ReplSlashMode::Bash),
        ..Default::default()
    };
    press(&mut draft, ReplKey::Backspace);
    assert_eq!(draft.slash_mode, None);
    press(&mut draft, ReplKey::Backspace);
    assert_eq!(draft.status.as_deref(), Some("Removed one pasted text block. 0 remaining."));
    press(&mut draft, ReplKey::Backspace);
    assert_eq!(draft.status.as_deref(), Some("Removed one image. 0 remaining."));
    assert!(draft.images.is_empty());
}

#[test]
fn enter_submits_text_and_images() {
    let mut draft = ReplEditorDraft::default();
    assert!(matches!(press(&mut draft, ReplKey::Enter), ReplStep::Stay));
    assert_eq!(
        draft.status.as_deref(),
        Some("Input is empty. Press Ctrl+V to attach a clipboard image.")
    );
    let mut draft = ReplEditorDraft {
        buffer: "look".to_string(),
        cursor: 4,
        images: vec![image()],
        collapsed_pastes: vec![CollapsedPaste { text: "pasted".to_string(), line_count: 1 }],
        ..Default::default()
    };
    match press(&mut draft, ReplKey::Enter) {
        ReplStep::Submit(prompt, images) => {
            assert_eq!(prompt, "look\n\npasted");
            assert_eq!(images.len(), 1);
        }
        other => panic!("unexpected step: {other:?}"),
    }
}

#[test]
fn keys_ask_for_what_is_outside() {
    let mut draft = ReplEditorDraft::default();
    let both = KeyMods { control: true, shift: true, other: false };
    assert!(matches!(
        handle_repl_event(&mut draft, None, ReplEvent::Key(ReplKey::Char('V'), both)),
        ReplStep::PasteText
    ));
    assert!(matches!(
        handle_repl_event(&mut draft, None, ReplEvent::Key(ReplKey::Char('v'), CONTROL)),
        ReplStep::PasteImage
    ));
    assert!(matches!(press(&mut draft, ReplKey::PageUp), ReplStep::ScrollUp(true)));
    assert!(matches!(
        handle_repl_event(&mut draft, None, ReplEvent::WheelDown),
        ReplStep::ScrollDown(false)
    ));
    match handle_repl_event(&mut draft, None, ReplEvent::Key(ReplKey::Char('c'), CONTROL)) {
        ReplStep::Submit(prompt, _) => assert_eq!(prompt, "/exit"),
        other => panic!("unexpected step: {other:?}"),
    }
    assert!(matches!(press(&mut draft, ReplKey::Char('/')), ReplStep::Stay));
    assert_eq!(draft.slash_mode, Some(ReplSlashMode::Commands));
}

#[test]
fn popup_selection_goes_round() {
    let mut draft =
        ReplEditorDraft { slash_mode: Some(ReplSlashMode::Audit), ..ReplEditorDraft::default() };
    let popup = popup_of(&draft, &no_sessions()).unwrap();
    sync_repl_popup_selection(&mut draft, Some(&popup));
    let last = popup.items.len() - 1;
    move_repl_popup_selection(&mut draft, Some(&popup), false);
    assert_eq!(draft.popup_selected, last);
    move_repl_popup_selection(&mut draft, Some(&popup), true);
    assert_eq!(draft.popup_selected, 0);
    draft.popup_selected = last;
    draft.popup_signature = Some("another".to_string());
    sync_repl_popup_selection(&mut draft, Some(&popup));
    assert_eq!(draft.popup_selected, 0);
    assert_eq!(popup_window_start(9, 12, 4), 7);
    assert_eq!(popup_window_start(11, 12, 4), 8);
}

fn screen() -> ReplScreenView {
    ReplScreenView {
        transcript: "one\ntwo\nthree\nfour\nfive\nsix\nseven\neight\nnine\nten".to_string(),
        provider_id: "p".to_string(),
        model_id: "m".to_string(),
        cwd_label: "d".to_string(),
        session_short: "s".to_string(),
        stream: true,
        tools: false,
    }
}

#[test]
fn the_frame_holds_all_parts() {
    let draft = ReplEditorDraft {
        buffer: "hi".to_string(),
        cursor: 2,
        transcript_scroll: usize::MAX,
        ..Default::default()
    };
    let frame = render_repl_editor(&screen(), &draft, None, 40, 12).unwrap();
    assert_eq!(frame.composer_top, 6);
    assert_eq!(frame.transcript, vec!["five", "six", "seven", "eight", "nine", "ten"]);
    assert_eq!(frame.composer.len(), 5);
    assert_eq!(frame.composer[1], format!(" ❯ hi{}", " ".repeat(34)));
    assert_eq!(frame.status_row, 11);
    assert_eq!(frame.cursor, Some((5, 7)));
    assert!(render_repl_editor(&screen(), &draft, None, 0, 12).is_none());
}

#[test]
fn scrolling_stays_within_the_transcript() {
    let mut draft = ReplEditorDraft { transcript_scroll: usize::MAX, ..Default::default() };
    let transcript = screen().transcript;
    let up = transcript_scroll_page_up(&transcript, &draft, 3, 40, 12);
    assert_eq!(up, 1);
    draft.transcript_scroll = up;
    assert_eq!(transcript_scroll_page_down(&transcript, &draft, 2, 40, 12), 3);
    assert_eq!(transcript_scroll_page_down(&transcript, &draft, 50, 40, 12), 4);
    assert_eq!(transcript_page_step(20), 12);
    assert_eq!(transcript_page_step(5), 1);
    assert_eq!(clipped_repl_transcript_lines("a\nb\nc", 10, 2, usize::MAX), vec!["b", "c"]);
    assert!(clipped_repl_transcript_lines("a", 10, 0, 0).is_empty());
}

#[test]
fn the_status_bar_fills_the_line() {
    assert_eq!(pad_status_bar_plain("l", "r", 10), " l      r ");
    assert_eq!(pad_status_bar_plain("left", "right", 8), " left ");
    let draft = ReplEditorDraft {
        status: Some("note".to_string()),
        slash_mode: Some(ReplSlashMode::Bash),
        ..Default::default()
    };
    let bar = build_repl_status_bar(&screen(), &draft, 120);
    assert!(bar.contains(" m │ d │ p │ s "));
    assert!(bar.contains(
        "note │ slash /bash │ 0 images │ 0 paste(s) │ 0 chars │ stream on │ tools off"
    ));
}

#[test]
fn only_the_last_panels_are_kept() {
    let mut state = ReplState::default();
    for i in 0..15 {
        push_repl_panel(
            &mut state,
            panel(ReplRuntimePanelKind::Status, &format!("{i}"), "body"),
        );
    }
    assert_eq!(state.panels.len(), 12);
    assert_eq!(state.panels[0].title, "3");
    assert_eq!(state.panels[11].title, "14");
}

fn repl_args() -> chat_cli::cli::ReplArgs {
    chat_cli::cli::ReplArgs {
        session: None,
        new_session: false,
        ephemeral: false,
        temp: false,
        tools: false,
        yes: true,
        system: None,
        multiline: false,
        stream: false,
        no_stream: true,
        context_status: None,
    }
}

#[test]
fn turns_take_their_options_from_the_state() {
    let config = AppConfig::default();
    let state = start_repl(&repl_args(), &config).unwrap();
    assert!(!state.stream);
    assert!(state.tools);
    let options = turn_options(&repl_args(), &state, "sess_1");
    assert_eq!(options.session.as_deref(), Some("sess_1"));
    assert!(options.yes);
    assert!(!options.stream);
    assert_eq!(turn_route(&state), chat_cli::output::AskRoute::Tools);
    let mut clash = repl_args();
    clash.new_session = true;
    clash.session = Some("x".to_string());
    let err = start_repl(&clash, &config).unwrap_err();
    assert_eq!(err.message, "--new-session cannot be used together with --session");
}

#[test]
fn a_failed_turn_is_shown() {
    let mut state = ReplState::default();
    let error = chat_cli::error::AppError::new(5, "no network");
    note_failed_turn(&mut state, &AppConfig::default(), "hello", &vec![image()], &error);
    assert_eq!(state.panels.len(), 2);
    assert_eq!(state.panels[0].body, "[Image #1] hello");
    assert_eq!(state.panels[1].kind, ReplRuntimePanelKind::Error);
    assert_eq!(state.panels[1].body, "no network");
}
