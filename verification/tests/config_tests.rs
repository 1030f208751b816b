use fastmail_cli::config::{Config, CoreConfig};

#[test]
fn test_config_default() {
    let config = Config::default();
    assert!(config.core.api_token.is_none());
}

#[test]
fn test_config_get_token_none() {
    // The config-only path: without the environment variable the file decides,
    // and a default file has no token.
    let config = Config::default();
    assert!(config.core.api_token.is_none());
}

#[test]
fn test_config_get_token_some() {
    let config = Config {
        core: CoreConfig {
            api_token: Some("test-token".to_string()),
        },
        ..Default::default()
    };
    assert_eq!(config.core.api_token.as_deref(), Some("test-token"));
}

#[test]
fn test_config_set_token() {
    let mut config = Config::default();
    config.set_token("new-token".to_string());
    assert_eq!(config.core.api_token, Some("new-token".to_string()));
}
