use gac::config::{default_excludes, with_encrypted_api_key, Config, ConfigError, FileConfig, ScopeEntry};
use gac::strmap::StrMap;

fn empty_file() -> FileConfig {
    FileConfig {
        endpoint: None,
        model: None,
        max_completion_tokens: None,
        exclude_patterns: None,
        scopes: None,
        api_key_encrypted: None,
    }
}

#[test]
fn default_config_values() {
    let c = Config::default();
    assert_eq!(c.model, "Gemma-4:E4B-QAT");
    assert_eq!(c.endpoint, "http://localhost:11438");
    assert_eq!(c.max_completion_tokens, 4096);
    assert_eq!(
        c.exclude_patterns,
        vec!["package-lock.json", "yarn.lock", "pnpm-lock.yaml", "bun.lockb", "Cargo.lock", "poetry.lock", "*.lock"]
    );
    assert_eq!(default_excludes(), c.exclude_patterns);
    assert!(c.scopes.is_empty());
    assert!(c.api_key.is_none());
    assert_eq!(c.validate(), Ok(()));
}

#[test]
fn validate_reports_the_first_problem() {
    let mut c = Config::default();
    c.endpoint = "  localhost:1/ ".into();
    assert_eq!(c.validate(), Err(ConfigError::MissingScheme("localhost:1/".into())));
    c.endpoint = " https://host/ ".into();
    assert_eq!(c.validate(), Err(ConfigError::TrailingSlash("https://host/".into())));
    c.max_completion_tokens = 0;
    assert_eq!(c.validate(), Err(ConfigError::ZeroMaxCompletionTokens));
    c.model = String::new();
    assert_eq!(c.validate(), Err(ConfigError::EmptyModel));
    c.model = "m".into();
    c.max_completion_tokens = 1;
    c.endpoint = "https://host".into();
    assert_eq!(c.validate(), Ok(()));
}

#[test]
fn config_error_messages() {
    assert_eq!(ConfigError::EmptyModel.message(), "model name is empty — set it in .gac.toml or via --model");
    assert_eq!(ConfigError::ZeroMaxCompletionTokens.message(), "max_completion_tokens must be > 0 (got 0)");
    assert_eq!(
        ConfigError::MissingScheme("x".into()).message(),
        "endpoint 'x' must start with http:// or https://"
    );
    assert_eq!(
        ConfigError::TrailingSlash("http://x/".into()).message(),
        "endpoint 'http://x/' has a trailing slash — remove it"
    );
}

#[test]
fn later_files_override_earlier_settings() {
    let mut c = Config::default();
    let mut user = empty_file();
    user.model = Some("user-model".into());
    user.max_completion_tokens = Some(1000);
    c.merge_file(user, "pw");
    let mut project = empty_file();
    project.model = Some("project-model".into());
    project.exclude_patterns = Some(vec!["*.snap".into()]);
    let mut scopes = StrMap::new();
    scopes.insert("api".to_string(), ScopeEntry::PathsOnly(vec!["src/api/**".into()]));
    project.scopes = Some(scopes);
    c.merge_file(project, "pw");
    assert_eq!(c.model, "project-model");
    assert_eq!(c.max_completion_tokens, 1000);
    assert_eq!(c.endpoint, "http://localhost:11438");
    assert_eq!(c.exclude_patterns, vec!["*.snap"]);
    assert_eq!(c.scopes.len(), 1);
    assert_eq!(c.scopes.key_at(0), "api");
    c.apply_cli_overrides(Some("cli-model".into()));
    assert_eq!(c.model, "cli-model");
    c.apply_cli_overrides(None);
    assert_eq!(c.model, "cli-model");
}

#[test]
fn undecryptable_key_leaves_the_key_unset() {
    let mut c = Config::default();
    let mut f = empty_file();
    f.api_key_encrypted = Some("%%% not base64 %%%".into());
    c.merge_file(f, "pw");
    assert!(c.api_key.is_none());
}

#[test]
fn saving_the_key_replaces_old_key_lines() {
    let content = "model = \"x\"\n  api_key_encrypted = \"old\"\n[scopes.api]\npaths = []\napi_key_encrypted = \"older\"\n";
    assert_eq!(
        with_encrypted_api_key(content, "NEW"),
        "model = \"x\"\napi_key_encrypted = \"NEW\"\n[scopes.api]\npaths = []\n"
    );
    let without = "model = \"x\"\nendpoint = \"http://h\"\n\n";
    assert_eq!(
        with_encrypted_api_key(without, "NEW"),
        "model = \"x\"\nendpoint = \"http://h\"\n\n# API key for llama-swap authentication (auto-encrypted)\napi_key_encrypted = \"NEW\"\n"
    );
    assert_eq!(
        with_encrypted_api_key("", "K"),
        "\n\n# API key for llama-swap authentication (auto-encrypted)\napi_key_encrypted = \"K\"\n"
    );
}

#[test]
fn scope_entry_paths() {
    assert_eq!(ScopeEntry::PathsOnly(vec!["a/**".into()]).paths(), &["a/**".to_string()]);
    assert!(ScopeEntry::Full { paths: None }.paths().is_empty());
    assert_eq!(ScopeEntry::Full { paths: Some(vec!["b".into()]) }.paths(), &["b".to_string()]);
}

#[test]
fn cascade_takes_the_project_over_the_user_over_defaults() {
    let mut user = empty_file();
    user.model = Some("user-model".into());
    user.endpoint = Some("http://user".into());
    user.api_key_encrypted = Some("not base64 %".into());
    let mut project = empty_file();
    project.model = Some("project-model".into());
    let c = Config::from_files(Some(user), Some(project), "pw");
    assert_eq!(c.model, "project-model");
    assert_eq!(c.endpoint, "http://user");
    assert_eq!(c.max_completion_tokens, 4096);
    assert!(c.api_key.is_none());
    let d = Config::from_files(None, None, "pw");
    assert_eq!(d.model, "Gemma-4:E4B-QAT");
    assert!(d.scopes.is_empty());
}
