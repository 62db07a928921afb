//! Tools, their effects and their results.

use chat_cli::actions::{
    build_ripgrep_args, parse_confirm_input, parse_ripgrep_matches, ConfirmResult,
};
use chat_cli::config::AppConfig;
use chat_cli::diff::{build_edit_preview_diff, build_full_file_diff, render_diff_preview};
use chat_cli::json::{object1, Json};
use chat_cli::shell::is_read_only_bash_command;
use chat_cli::skills::{resolve_skill_entry, SkillEntry};
use chat_cli::tools::{
    initial_tool_definitions, lookup_tool_spec, tool_call_requires_confirmation,
    tool_call_side_effects, tool_search_matches, ToolCall, ToolSideEffects,
};

#[test]
fn build_ripgrep_args_includes_expected_flags() {
    let args = build_ripgrep_args("foo", "src", Some("*.rs"));
    assert!(args.contains(&"--json".to_string()));
    assert!(args.contains(&"--hidden".to_string()));
    assert!(args.contains(&"--follow".to_string()));
    assert!(args.contains(&"*.rs".to_string()));
    assert!(args.contains(&"!.git/**".to_string()));
    assert_eq!(args.last().map(String::as_str), Some("src"));
}

#[test]
fn parse_ripgrep_matches_formats_match_lines() {
    let stdout = "{\"type\":\"begin\",\"data\":{\"path\":{\"text\":\"src/tool.rs\"}}}\n{\"type\":\"match\",\"data\":{\"path\":{\"text\":\"src/tool.rs\"},\"lines\":{\"text\":\"let value = 1;\\n\"},\"line_number\":42}}\n{\"type\":\"summary\",\"data\":{\"elapsed_total\":{\"human\":\"0.01s\"}}}\n";
    let (results, truncated) = parse_ripgrep_matches(stdout, 50).unwrap();
    assert_eq!(results, vec!["src/tool.rs:42: let value = 1;"]);
    assert!(!truncated);
}

#[test]
fn parse_ripgrep_matches_marks_truncation() {
    let stdout = "{\"type\":\"match\",\"data\":{\"path\":{\"text\":\"a.rs\"},\"lines\":{\"text\":\"first\\n\"},\"line_number\":1}}\n{\"type\":\"match\",\"data\":{\"path\":{\"text\":\"b.rs\"},\"lines\":{\"text\":\"second\\n\"},\"line_number\":2}}\n";
    let (results, truncated) = parse_ripgrep_matches(stdout, 1).unwrap();
    assert_eq!(results, vec!["a.rs:1: first"]);
    assert!(truncated);
}

#[test]
fn resolve_skill_entry_supports_scoped_lookup() {
    let entries = vec![
        SkillEntry {
            name: "dup".to_string(),
            scope: "project".to_string(),
            path: "/tmp/project/SKILL.md".to_string(),
            summary: None,
        },
        SkillEntry {
            name: "dup".to_string(),
            scope: "global".to_string(),
            path: "/tmp/global/SKILL.md".to_string(),
            summary: None,
        },
    ];

    let project = resolve_skill_entry(&entries, "project:dup", None).unwrap();
    assert_eq!(project.scope, "project");

    let global = resolve_skill_entry(&entries, "dup", Some("global")).unwrap();
    assert_eq!(global.scope, "global");

    let err = resolve_skill_entry(&entries, "dup", None).unwrap_err();
    assert!(err.message.contains("ambiguous"));
}

#[test]
fn lookup_tool_spec_exposes_registry_metadata() {
    let grep = lookup_tool_spec("grep").unwrap();
    assert_eq!(grep.side_effects, ToolSideEffects::ReadOnly);
    assert!(grep.is_parallel_safe());
    assert!(!grep.requires_confirmation);
    assert_eq!(grep.name, "Grep");

    let fetch = lookup_tool_spec("fetch").unwrap();
    assert_eq!(fetch.side_effects, ToolSideEffects::External);
    assert!(!fetch.requires_confirmation);

    let write_alias = lookup_tool_spec("write").unwrap();
    assert_eq!(write_alias.name, "Edit");
    assert!(write_alias.requires_confirmation);
}

fn name_of(def: &Json) -> Option<&str> {
    def.get("function").and_then(|f| f.get("name")).and_then(|n| n.as_str())
}

#[test]
fn initial_tool_definitions_only_exposes_tool_search_when_progressive_loading_enabled() {
    let mut config = AppConfig::default();
    config.tools.progressive_loading = Some(true);
    let defs = initial_tool_definitions(&config, ".agents/skills");
    assert_eq!(defs.len(), 1);
    assert_eq!(name_of(&defs[0]), Some("ToolSearch"));
}

#[test]
fn initial_tool_definitions_exposes_full_toolset_when_progressive_loading_disabled() {
    let mut config = AppConfig::default();
    config.tools.progressive_loading = Some(false);
    let defs = initial_tool_definitions(&config, ".agents/skills");
    let names = defs.iter().filter_map(name_of).collect::<Vec<_>>();
    assert!(!names.contains(&"ToolSearch"));
    assert!(names.contains(&"Bash"));
    assert!(names.contains(&"Read"));
    assert!(names.contains(&"Edit"));
    assert_eq!(defs.len(), 8);
}

#[test]
fn tool_search_matches_claude_style_tools() {
    let matches = tool_search_matches("shell", 3);
    let names = matches.iter().map(|spec| spec.name).collect::<Vec<_>>();
    assert!(names.contains(&"Bash"));

    let write_matches = tool_search_matches("write", 3);
    let write_names = write_matches.iter().map(|spec| spec.name).collect::<Vec<_>>();
    assert!(write_names.contains(&"Edit"));
    assert!(!write_names.contains(&"Write"));
}

#[test]
fn bash_read_only_detection_distinguishes_safe_and_mutating_commands() {
    assert!(is_read_only_bash_command("ls -la"));
    assert!(is_read_only_bash_command("pwd && date && uname -a"));
    assert!(!is_read_only_bash_command("echo hi > /tmp/x"));
    assert!(!is_read_only_bash_command("rm -f /tmp/x"));
}

fn bash_call(id: &str, command: &str) -> ToolCall {
    ToolCall {
        id: id.to_string(),
        name: "Bash".to_string(),
        arguments: object1("command", Json::Str(command.to_string())),
    }
}

#[test]
fn tool_call_side_effects_downgrades_read_only_bash() {
    let read_only_call = bash_call("call_1", "ls -la");
    let mutating_call = bash_call("call_2", "rm -f /tmp/x");
    assert_eq!(tool_call_side_effects(&read_only_call), ToolSideEffects::ReadOnly);
    assert_eq!(tool_call_side_effects(&mutating_call), ToolSideEffects::Mutating);
    assert!(!tool_call_requires_confirmation(&read_only_call));
    assert!(tool_call_requires_confirmation(&mutating_call));
}

#[test]
fn parse_confirm_input_treats_freeform_text_as_feedback_when_editable() {
    let result = parse_confirm_input("将 echo 结果改为中文", Some("echo test"));
    match result {
        Some(ConfirmResult::No(Some(feedback))) => {
            assert_eq!(feedback, "将 echo 结果改为中文");
        }
        other => panic!("unexpected confirm result: {other:?}"),
    }
}

#[test]
fn parse_confirm_input_only_edits_on_explicit_edit_prefix() {
    let result = parse_confirm_input("edit echo 中文结果", Some("echo test"));
    match result {
        Some(ConfirmResult::Edit(replacement)) => {
            assert_eq!(replacement, "echo 中文结果");
        }
        other => panic!("unexpected confirm result: {other:?}"),
    }
}

#[test]
fn build_edit_preview_diff_includes_hunk_context_and_changes() {
    let original = "fn main() {\n    old_call();\n}\n";
    let match_start = original.find("old_call();").unwrap();
    let diff = build_edit_preview_diff(
        "src/app.rs",
        original,
        &[match_start],
        "old_call();",
        "new_call();\n    trace_call();",
    );

    assert!(diff.contains("@@ -1,3 +1,4 @@"));
    assert!(diff.contains(" fn main() {"));
    assert!(diff.contains("-    old_call();"));
    assert!(diff.contains("+    new_call();"));
    assert!(diff.contains("+    trace_call();"));
}

#[test]
fn build_full_file_diff_renders_file_creation() {
    let diff = build_full_file_diff("src/new.rs", "", "fn main() {}\n");
    assert!(diff.contains("@@ -1,0 +1,1 @@"));
    assert!(diff.contains("+fn main() {}"));
}

fn strip_ansi(value: &str) -> String {
    regex::Regex::new(r"\x1b\[[0-9;]*m")
        .unwrap()
        .replace_all(value, "")
        .into_owned()
}

#[test]
fn render_diff_preview_renders_line_numbers_for_removed_and_added_lines() {
    let diff = "\
--- src/app.rs
+++ src/app.rs
@@ -10,3 +10,4 @@
 fn main() {
-    old_call();
+    new_call();
+    trace_call();
 }
";
    let stripped = strip_ansi(&render_diff_preview("src/app.rs", diff));

    assert!(stripped.contains("10   fn main() {"));
    assert!(stripped.contains("11 -     old_call();"));
    assert!(stripped.contains("11 +     new_call();"));
    assert!(stripped.contains("12 +     trace_call();"));
}
