use agent_book_translate::config::{
    expand_env_vars, AppConfig, CliOverrides, EnvSnapshot, FileConfig, FileReasoningConfig, ReasoningConfig,
    ReasoningIntensity,
};

fn no_env() -> EnvSnapshot {
    EnvSnapshot {
        llm_api_key: None,
        openai_api_key: None,
        llm_base_url: None,
        openai_base_url: None,
        llm_model: None,
        openai_model: None,
        http_proxy: None,
        https_proxy: None,
    }
}

fn empty_file() -> FileConfig {
    FileConfig {
        base_url: None,
        api_key: None,
        default_model: None,
        concurrency: None,
        bilingual: None,
        max_spend_usd_bits: None,
        http_proxy: None,
        reasoning: None,
        target_language: None,
    }
}

#[test]
fn explicit_config_path_overrides_default_values() {
    let file = FileConfig {
        base_url: Some("https://example.invalid/v1".to_string()),
        default_model: Some("mimo-v2.5-pro".to_string()),
        concurrency: Some(2),
        bilingual: Some(true),
        http_proxy: Some("http://127.0.0.1:1080".to_string()),
        reasoning: Some(FileReasoningConfig {
            enable: Some(false),
            intensity: Some(ReasoningIntensity::Low),
        }),
        ..empty_file()
    };

    let config = AppConfig::resolve(Some(file), &no_env());
    assert_eq!(config.base_url, "https://example.invalid/v1");
    assert_eq!(config.default_model, "mimo-v2.5-pro");
    assert_eq!(config.concurrency, 2);
    assert!(config.bilingual);
    assert_eq!(config.http_proxy.as_deref(), Some("http://127.0.0.1:1080"));
}

#[test]
fn missing_default_config_path_uses_defaults() {
    let config = AppConfig::resolve(None, &no_env());
    assert_eq!(config.default_model, "mimo-v2.5-pro");
}

#[test]
fn defaults_are_the_documented_ones() {
    let config = AppConfig::default();
    assert_eq!(config.base_url, "https://openrouter.ai/api/v1");
    assert_eq!(config.api_key, "");
    assert_eq!(config.concurrency, 5);
    assert!(!config.bilingual);
    assert_eq!(config.max_spend_usd_bits, None);
    assert_eq!(config.http_proxy, None);
    assert_eq!(config.target_language, "Chinese");
    assert_eq!(
        config.reasoning,
        ReasoningConfig { enable: false, intensity: ReasoningIntensity::Low }
    );
}

#[test]
fn reasoning_table_fills_missing_keys() {
    let r = ReasoningConfig::from(FileReasoningConfig { enable: Some(true), intensity: None });
    assert_eq!(r, ReasoningConfig { enable: true, intensity: ReasoningIntensity::Low });
    let file = FileConfig {
        reasoning: Some(FileReasoningConfig { enable: None, intensity: Some(ReasoningIntensity::Max) }),
        max_spend_usd_bits: Some(2.5f64.to_bits()),
        ..empty_file()
    };
    let config = AppConfig::default().merge(file);
    assert_eq!(config.reasoning, ReasoningConfig { enable: false, intensity: ReasoningIntensity::Max });
    assert_eq!(config.max_spend_usd_bits.map(f64::from_bits), Some(2.5));
}

#[test]
fn environment_wins_over_file_and_cli_over_environment() {
    let file = FileConfig {
        api_key: Some("from-file".to_string()),
        default_model: Some("file-model".to_string()),
        concurrency: Some(3),
        ..empty_file()
    };
    let env = EnvSnapshot {
        llm_api_key: Some("from-env".to_string()),
        openai_model: Some("env-model".to_string()),
        ..no_env()
    };
    let mut config = AppConfig::resolve(Some(file), &env);
    assert_eq!(config.api_key, "from-env");
    assert_eq!(config.default_model, "env-model");
    assert_eq!(config.concurrency, 3);

    config.apply_cli_overrides(&CliOverrides {
        api_key: Some("from-cli".to_string()),
        base_url: None,
        model: None,
        concurrency: Some(8),
        bilingual: true,
        max_spend_usd_bits: None,
        language: None,
    });
    assert_eq!(config.api_key, "from-cli");
    assert_eq!(config.default_model, "env-model");
    assert_eq!(config.concurrency, 8);
    assert!(config.bilingual);
    assert_eq!(config.target_language, "Chinese");
}

#[test]
fn language_flag_sets_target_language() {
    let mut config = AppConfig::default();
    config.apply_cli_overrides(&CliOverrides {
        api_key: None,
        base_url: None,
        model: None,
        concurrency: None,
        bilingual: false,
        max_spend_usd_bits: None,
        language: Some("zh".to_string()),
    });
    assert_eq!(config.target_language, "zh");
    assert_eq!(config.concurrency, AppConfig::default().concurrency);
}

#[test]
fn empty_primary_variable_hides_the_fallback() {
    let env = EnvSnapshot {
        llm_api_key: Some(String::new()),
        openai_api_key: Some("fallback".to_string()),
        http_proxy: None,
        https_proxy: Some("http://proxy:8080".to_string()),
        ..no_env()
    };
    let mut config = AppConfig::default();
    config.api_key = "kept".to_string();
    config.apply_environment_overrides(&env);
    assert_eq!(config.api_key, "kept");
    assert_eq!(config.http_proxy.as_deref(), Some("http://proxy:8080"));
}

#[test]
fn variable_references_are_expanded() {
    let vars = vec![
        ("HOME".to_string(), "/home/reader".to_string()),
        ("API_KEY".to_string(), "sk-test".to_string()),
        ("_x1".to_string(), "v".to_string()),
    ];
    assert_eq!(expand_env_vars("$HOME/books", &vars), "/home/reader/books");
    assert_eq!(expand_env_vars("key=${API_KEY};", &vars), "key=sk-test;");
    assert_eq!(expand_env_vars("$MISSING and ${MISSING}", &vars), "$MISSING and ${MISSING}");
    assert_eq!(expand_env_vars("cost $5 ${1} $ {HOME} ${HOME", &vars), "cost $5 ${1} $ {HOME} ${HOME");
    assert_eq!(expand_env_vars("$_x1$_x1", &vars), "vv");
    assert_eq!(expand_env_vars("价格$HOME元", &vars), "价格/home/reader元");
    assert_eq!(expand_env_vars("", &vars), "");
}

#[test]
fn references_expand_left_to_right_without_overlap() {
    let vars = vec![
        ("A".to_string(), "alpha".to_string()),
        ("B_1".to_string(), "beta".to_string()),
    ];
    assert_eq!(
        expand_env_vars("${A}x$B_1 $9 ${1x} ${A $A_ $$A", &vars),
        "alphaxbeta $9 ${1x} ${A $A_ $alpha"
    );
    assert_eq!(expand_env_vars("", &vars), "");
    assert_eq!(expand_env_vars("$", &vars), "$");
}
