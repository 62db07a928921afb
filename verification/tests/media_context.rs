//! Images, and the status of the surroundings.

use chat_cli::context::{
    collect_context_status, first_non_empty_line, resolve_context_status_mode, shell_tool_status,
    visible_dir_entries, ContextStatusMode, DirItem, Surroundings,
};
use chat_cli::media::detect_image_media_type;

#[test]
fn detect_image_media_type_uses_magic_bytes() {
    assert_eq!(
        detect_image_media_type("a.bin", b"\x89PNG\r\n\x1a\nrest"),
        Some("image/png")
    );
    assert_eq!(
        detect_image_media_type("a.bin", &[0xff, 0xd8, 0xff, 0x00]),
        Some("image/jpeg")
    );
}

#[test]
fn detect_image_media_type_falls_back_to_extension() {
    assert_eq!(detect_image_media_type("a.webp", b"not enough"), Some("image/webp"));
}

#[test]
fn cli_context_status_mode_overrides_config() {
    let resolved =
        resolve_context_status_mode(Some(ContextStatusMode::Off), Some(ContextStatusMode::Always));
    assert_eq!(resolved, ContextStatusMode::Off);
}

#[test]
fn config_context_status_mode_is_used_when_cli_is_absent() {
    let resolved = resolve_context_status_mode(None, Some(ContextStatusMode::SystemOnce));
    assert_eq!(resolved, ContextStatusMode::SystemOnce);
}

#[test]
fn first_non_empty_line_prefers_stdout_then_stderr() {
    assert_eq!(first_non_empty_line("\nvalue\n", "ignored"), Some("value".to_string()));
    assert_eq!(first_non_empty_line("", "\nerror\n"), Some("error".to_string()));
}

fn item(name: &str, is_dir: bool) -> DirItem {
    DirItem { name: name.to_string(), is_dir }
}

#[test]
fn visible_dir_entries_filters_common_ignored_paths() {
    let entries =
        visible_dir_entries(&vec![item(".git", true), item("src", true), item("Cargo.toml", false)]);
    let names = entries.iter().map(|entry| entry.name.clone()).collect::<Vec<_>>();
    assert!(names.contains(&"src".to_string()));
    assert!(names.contains(&"Cargo.toml".to_string()));
    assert!(!names.contains(&".git".to_string()));
    assert_eq!(names, vec!["Cargo.toml", "src"]);
}

fn surroundings() -> Surroundings {
    Surroundings {
        time: "2024-01-02 03:04:05 UTC".to_string(),
        user: Some(" me ".to_string()),
        cwd: Some("/work".to_string()),
        entries: Some(vec![item("a.txt", false), item("src", true)]),
        children: vec![None, Some(vec![item("lib.rs", false), item("target", true)])],
        work_tree: Some("true".to_string()),
        branch: Some("main".to_string()),
        commit: Some(String::new()),
        os: "Linux".to_string(),
        windows: false,
        shell: None,
        tools: vec![Some("git version 2.0\nmore".to_string()), None],
    }
}

#[test]
fn collect_context_status_contains_core_sections() {
    let status = collect_context_status(&surroundings());
    assert!(status.contains("# Current Status"));
    assert!(status.contains("**Time**:"));
    assert!(status.contains("**Working Directory**:"));
    assert!(status.contains("## Environment"));
    assert!(status.contains("## Tooling"));
    assert!(status.contains("**ripgrep (`rg`)**:"));
}

#[test]
fn context_status_is_written_part_by_part() {
    let status = collect_context_status(&surroundings());
    assert!(status.starts_with(
        "# Current Status\n\n**Time**: 2024-01-02 03:04:05 UTC\n\n**User**: me\n\n**Working Directory**: `/work`\n\n## File Tree (depth=2)\n\n- a.txt\n\n- src/\n  - lib.rs\n\n## Git\n\n**Branch**: main\n\n## Environment\n\n**OS**: Linux\n\n**Shell Tool**: bash not found\n\n## Tooling\n\n**Git**: git version 2.0\n\n**ripgrep (`rg`)**: not found (required by Grep)\n\n**Python**: not found"
    ));
    assert!(status.ends_with("**Java**: not found"));
}

#[test]
fn long_directories_are_cut() {
    let many = (0..55).map(|i| item(&format!("f{i:02}"), false)).collect::<Vec<_>>();
    let children = (0..23).map(|i| item(&format!("c{i:02}"), false)).collect::<Vec<_>>();
    let mut s = surroundings();
    let mut entries = many;
    entries.insert(0, item("d", true));
    s.entries = Some(entries);
    s.children = vec![Some(children)];
    let status = collect_context_status(&s);
    assert!(status.contains("... (6 more entries)"));
    assert!(status.contains("\n  - c19\n  - ... (3 more)"));
    assert!(!status.contains("c20"));
}

#[test]
fn the_shell_is_named_by_platform() {
    let told = |text: &str| Some(text.to_string());
    assert_eq!(shell_tool_status(&told("GNU bash, 5.2\nmore"), false), "GNU bash, 5.2");
    assert_eq!(shell_tool_status(&None, false), "bash not found");
    assert_eq!(shell_tool_status(&told("PowerShell 7.4"), true), "PowerShell 7.4");
    assert_eq!(shell_tool_status(&told("5.1.2"), true), "PowerShell 5.1.2");
    assert_eq!(shell_tool_status(&None, true), "PowerShell not found");
}
