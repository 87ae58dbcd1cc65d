use aura::cfg::{
    ancestor_config_paths, config_file_paths, CompressConfig, Config, ConfigError, ConfigKey,
    ConfigPath, LoggingConfig, ModelConfig, ServerConfig, Source, SummaryConfig,
};

fn full_config() -> Config {
    Config {
        logging: Some(LoggingConfig { enabled: Some(true) }),
        summary: Some(SummaryConfig {
            disable: Some(false),
            threshold: Some(400),
            timeout_secs: Some(12),
        }),
        compress: Some(CompressConfig { prompt: Some("Summarize {cmd}: {clean_output}".to_string()) }),
        server: Some(ServerConfig { control_tcp: Some("127.0.0.1:40001".to_string()) }),
        model: Some(ModelConfig {
            name: Some("llama3.2".to_string()),
            addr: Some("127.0.0.1:11434".to_string()),
        }),
    }
}

fn empty_config() -> Config {
    Config { logging: None, summary: None, compress: None, server: None, model: None }
}

fn path(absolute: bool, parts: &[&str]) -> ConfigPath {
    ConfigPath { absolute, parts: parts.iter().map(|p| p.to_string()).collect() }
}

fn parts(p: &ConfigPath) -> Vec<String> {
    p.parts.clone()
}

#[test]
fn accessors_report_values_from_config() {
    let cfg = full_config();
    assert_eq!(cfg.logging_enabled_with_source(), (Some(true), Source::Config));
    assert_eq!(cfg.disable_summary_with_source(), (Some(false), Source::Config));
    assert_eq!(cfg.summarize_threshold_with_source(), (Some(400), Source::Config));
    assert_eq!(cfg.summarize_timeout_secs_with_source(), (Some(12), Source::Config));
    assert_eq!(cfg.compress_prompt(), Some("Summarize {cmd}: {clean_output}".to_string()));
    assert_eq!(cfg.control_tcp_with_source(), (Some("127.0.0.1:40001".to_string()), Source::Config));
    assert_eq!(cfg.control_tcp(), Some("127.0.0.1:40001".to_string()));
    assert_eq!(cfg.model_addr_with_source(), (Some("127.0.0.1:11434".to_string()), Source::Config));
    assert_eq!(cfg.model_addr(), Some("127.0.0.1:11434".to_string()));
    assert_eq!(cfg.model_name(), Some("llama3.2".to_string()));
}

#[test]
fn accessors_report_missing_values() {
    let cfg = empty_config();
    assert_eq!(cfg.logging_enabled_with_source(), (None, Source::Missing));
    assert_eq!(cfg.disable_summary_with_source(), (None, Source::Missing));
    assert_eq!(cfg.summarize_threshold_with_source(), (None, Source::Missing));
    assert_eq!(cfg.summarize_timeout_secs_with_source(), (None, Source::Missing));
    assert_eq!(cfg.compress_prompt(), None);
    assert_eq!(cfg.control_tcp_with_source(), (None, Source::Missing));
    assert_eq!(cfg.control_tcp(), None);
    assert_eq!(cfg.model_addr_with_source(), (None, Source::Missing));
    assert_eq!(cfg.model_addr(), None);
    assert_eq!(cfg.model_name(), None);
    assert_eq!(cfg.model_base_url(), None);
}

#[test]
fn section_present_but_key_absent_is_missing() {
    let mut cfg = full_config();
    cfg.summary = Some(SummaryConfig { disable: None, threshold: Some(5), timeout_secs: None });
    assert_eq!(cfg.disable_summary_with_source(), (None, Source::Missing));
    assert_eq!(cfg.summarize_threshold_with_source(), (Some(5), Source::Config));
    assert_eq!(cfg.summarize_timeout_secs_with_source(), (None, Source::Missing));
}

#[test]
fn model_base_url_prefixes_http() {
    assert_eq!(full_config().model_base_url(), Some("http://127.0.0.1:11434".to_string()));
}

#[test]
fn validate_accepts_complete_config() {
    assert_eq!(full_config().validate(), Ok(()));
}

#[test]
fn validate_reports_first_missing_key_in_order() {
    assert_eq!(empty_config().validate(), Err(ConfigError::Missing(ConfigKey::LoggingEnabled)));

    let mut cfg = full_config();
    cfg.summary = None;
    cfg.model = None;
    assert_eq!(cfg.validate(), Err(ConfigError::Missing(ConfigKey::SummaryDisable)));

    let mut cfg = full_config();
    cfg.summary = Some(SummaryConfig { disable: Some(true), threshold: None, timeout_secs: None });
    assert_eq!(cfg.validate(), Err(ConfigError::Missing(ConfigKey::SummaryThreshold)));

    let mut cfg = full_config();
    cfg.summary = Some(SummaryConfig { disable: Some(true), threshold: Some(1), timeout_secs: None });
    assert_eq!(cfg.validate(), Err(ConfigError::Missing(ConfigKey::SummaryTimeoutSecs)));

    let mut cfg = full_config();
    cfg.compress = Some(CompressConfig { prompt: None });
    assert_eq!(cfg.validate(), Err(ConfigError::Missing(ConfigKey::CompressPrompt)));

    let mut cfg = full_config();
    cfg.server = None;
    assert_eq!(cfg.validate(), Err(ConfigError::Missing(ConfigKey::ServerControlTcp)));

    let mut cfg = full_config();
    cfg.model = Some(ModelConfig { name: None, addr: Some("x".to_string()) });
    assert_eq!(cfg.validate(), Err(ConfigError::Missing(ConfigKey::ModelName)));
}

#[test]
fn validate_does_not_need_model_addr() {
    let mut cfg = full_config();
    cfg.model = Some(ModelConfig { name: Some("m".to_string()), addr: None });
    assert_eq!(cfg.validate(), Ok(()));
}

#[test]
fn missing_key_messages() {
    let cases = [
        (ConfigKey::LoggingEnabled, "logging.enabled is missing in config"),
        (ConfigKey::SummaryDisable, "summary.disable is missing in config"),
        (ConfigKey::SummaryThreshold, "summary.threshold is missing in config"),
        (ConfigKey::SummaryTimeoutSecs, "summary.timeout_secs is missing in config"),
        (ConfigKey::CompressPrompt, "compress.prompt is missing in config"),
        (ConfigKey::ServerControlTcp, "server.control_tcp is missing in config"),
        (ConfigKey::ModelName, "model.name is missing in config"),
    ];
    for (key, text) in cases {
        assert_eq!(ConfigError::Missing(key).message(), text);
    }
}

#[test]
fn ancestor_paths_walk_to_root() {
    let paths = ancestor_config_paths(&path(true, &["home", "user", "proj"]));
    assert_eq!(paths.len(), 4);
    assert!(paths.iter().all(|p| p.absolute));
    assert_eq!(parts(&paths[0]), vec!["home", "user", "proj", "config", "aura.toml"]);
    assert_eq!(parts(&paths[1]), vec!["home", "user", "config", "aura.toml"]);
    assert_eq!(parts(&paths[2]), vec!["home", "config", "aura.toml"]);
    assert_eq!(parts(&paths[3]), vec!["config", "aura.toml"]);
}

#[test]
fn ancestor_paths_of_root_and_relative() {
    let root = ancestor_config_paths(&path(true, &[]));
    assert_eq!(root.len(), 1);
    assert_eq!(parts(&root[0]), vec!["config", "aura.toml"]);
    let rel = ancestor_config_paths(&path(false, &["a"]));
    assert_eq!(rel.len(), 2);
    assert!(!rel[0].absolute);
    assert_eq!(parts(&rel[0]), vec!["a", "config", "aura.toml"]);
    assert_eq!(parts(&rel[1]), vec!["config", "aura.toml"]);
}

#[test]
fn config_file_paths_in_order() {
    let cwd = path(true, &["work"]);
    let exe = path(true, &["opt", "aura", "bin", "aura"]);
    let xdg = path(true, &["xdg"]);
    let home = path(true, &["home", "u"]);
    let paths = config_file_paths(Some(&cwd), Some(&exe), Some(&xdg), Some(&home));
    let got: Vec<Vec<String>> = paths.iter().map(parts).collect();
    let want: Vec<Vec<&str>> = vec![
        vec!["work", "config", "aura.toml"],
        vec!["config", "aura.toml"],
        vec!["opt", "aura", "bin", "config", "aura.toml"],
        vec!["opt", "aura", "config", "aura.toml"],
        vec!["opt", "config", "aura.toml"],
        vec!["config", "aura.toml"],
        vec!["xdg", "aura", "aura.toml"],
        vec!["home", "u", ".config", "aura", "aura.toml"],
    ];
    assert_eq!(got, want);
}

#[test]
fn config_file_paths_skip_absent_inputs() {
    assert_eq!(config_file_paths(None, None, None, None).len(), 0);
    let root_exe = path(true, &[]);
    assert_eq!(config_file_paths(None, Some(&root_exe), None, None).len(), 0);
    let home = path(true, &["h"]);
    let only_home = config_file_paths(None, None, None, Some(&home));
    assert_eq!(only_home.len(), 1);
    assert_eq!(parts(&only_home[0]), vec!["h", ".config", "aura", "aura.toml"]);
}

#[test]
fn config_listing_shows_values_and_sources() {
    assert_eq!(
        aura::server::config_show_text(&full_config()),
        "logging: true (config file)\nmodel: llama3.2 (config file)\ndisable_summary: false (config file)\nsummarize_threshold: 400 (config file)\nsummarize_timeout_secs: 12 (config file)\ncontrol_tcp: 127.0.0.1:40001 (config file)\n"
    );
    assert_eq!(
        aura::server::config_show_text(&empty_config()),
        "logging: unset (missing)\nmodel: unset (missing)\ndisable_summary: unset (missing)\nsummarize_threshold: unset (missing)\nsummarize_timeout_secs: unset (missing)\ncontrol_tcp: unset (missing)\n"
    );
}
