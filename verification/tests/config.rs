//! The configuration.

use chat_cli::config::{
    apply_runtime_config_defaults, ensure_default_audit_prompt_files, set_config_value,
    validate_config, AppConfig, AppPaths, PathVariables,
};

#[test]
fn default_skills_paths_are_populated() {
    let config = AppConfig::with_skills_dir(".agents/skills");
    assert_eq!(config.skills.paths, vec![".agents/skills", "~/.agents/skills"]);
    assert_eq!(config.tools.max_rounds, Some(20));
    assert_eq!(config.tools.progressive_loading, Some(true));
}

#[test]
fn set_config_value_parses_skills_paths_array() {
    let mut config = AppConfig::default();
    set_config_value(&mut config, "skills.paths", "[\"a\",\"b\"]").unwrap();
    assert_eq!(config.skills.paths, vec!["a", "b"]);
}

#[test]
fn set_config_value_parses_tools_max_rounds() {
    let mut config = AppConfig::default();
    set_config_value(&mut config, "tools.max_rounds", "12").unwrap();
    set_config_value(&mut config, "tools.progressive_loading", "false").unwrap();
    assert_eq!(config.tools.max_rounds, Some(12));
    assert_eq!(config.tools.progressive_loading, Some(false));
}

#[test]
fn set_config_value_parses_audit_keys() {
    let mut config = AppConfig::default();
    set_config_value(&mut config, "audit.enabled", "true").unwrap();
    set_config_value(&mut config, "audit.model", "audit-model").unwrap();
    set_config_value(&mut config, "audit.default_prompt_file", "/tmp/audit-default.md").unwrap();
    set_config_value(&mut config, "audit.bash_prompt_file", "/tmp/audit-bash.md").unwrap();
    set_config_value(&mut config, "audit.edit_prompt_file", "/tmp/audit-edit.md").unwrap();
    assert_eq!(config.audit.enabled, Some(true));
    assert_eq!(config.audit.model.as_deref(), Some("audit-model"));
    assert_eq!(config.audit.default_prompt_file.as_deref(), Some("/tmp/audit-default.md"));
    assert_eq!(config.audit.bash_prompt_file.as_deref(), Some("/tmp/audit-bash.md"));
    assert_eq!(config.audit.edit_prompt_file.as_deref(), Some("/tmp/audit-edit.md"));

    set_config_value(&mut config, "audit.model", "").unwrap();
    set_config_value(&mut config, "audit.default_prompt_file", "").unwrap();
    assert_eq!(config.audit.model, None);
    assert_eq!(config.audit.default_prompt_file, None);
}

#[test]
fn validate_config_reports_missing_audit_model() {
    let mut config = AppConfig::default();
    config.audit.model = Some("missing-audit-model".to_string());
    let issues = validate_config(&config);
    assert!(issues
        .iter()
        .any(|issue| issue.contains("audit.model references missing model")));
}

#[test]
fn runtime_defaults_populate_audit_prompt_paths_and_create_prompt_files() {
    let paths = AppPaths::from_overrides(
        Some("/base/config".to_string()),
        Some("/base/data".to_string()),
        PathVariables {
            home: Some("/home/me".to_string()),
            config_home: None,
            data_home: None,
            cache_home: None,
        },
    )
    .unwrap();
    let mut config = AppConfig::default();
    apply_runtime_config_defaults(&paths, &mut config);
    let files = ensure_default_audit_prompt_files(&paths, false, false, false);

    let default_path = config.audit.default_prompt_file.clone().unwrap();
    let bash_path = config.audit.bash_prompt_file.clone().unwrap();
    let edit_path = config.audit.edit_prompt_file.clone().unwrap();
    let text = |path: &str| {
        files
            .iter()
            .find(|file| file.path == path)
            .map(|file| file.text.clone())
            .unwrap()
    };
    assert!(text(&default_path).contains("\"results\""));
    assert!(text(&bash_path).contains("shell"));
    assert!(text(&edit_path).contains("file edit"));
}
