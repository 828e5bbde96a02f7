use web2llm::config::{validate_config, Timeout, Web2llmConfig};
use web2llm::error::Web2llmError;
use web2llm::fetch::FetchMode;

#[test]
fn test_config_defaults() {
    let config = Web2llmConfig::default();
    assert!(config.user_agent.contains("0.4.0"));
    assert_eq!(config.timeout, Timeout::from_secs(30));
    assert!(config.block_private_hosts);
    assert_eq!(f32::from_bits(config.sensitivity_bits), 0.1);
    assert!(config.robots_check);
}

#[test]
fn test_config_new() {
    let config = Web2llmConfig::new(
        "custom-agent".to_string(),
        Timeout::from_secs(10),
        false,
        0.5f32.to_bits(),
        false,
        10,
        20,
        FetchMode::Dynamic,
    );
    assert_eq!(config.user_agent, "custom-agent");
    assert_eq!(config.timeout, Timeout::from_secs(10));
    assert!(!config.block_private_hosts);
    assert_eq!(f32::from_bits(config.sensitivity_bits), 0.5);
    assert!(!config.robots_check);
    assert_eq!(config.rate_limit, 10);
    assert_eq!(config.max_concurrency, 20);
    assert_eq!(config.fetch_mode, FetchMode::Dynamic);
}

#[test]
fn default_config_values() {
    let config = Web2llmConfig::default();
    assert_eq!(config.user_agent, "web2llm/0.4.0");
    assert_eq!(config.rate_limit, 5);
    assert_eq!(config.max_concurrency, 10);
    assert_eq!(config.max_tokens, 1000);
    assert_eq!(config.fetch_mode, FetchMode::Auto);
    assert!(!config.ordered);
    assert!(validate_config(&config).is_ok());
}

#[test]
fn with_robots_check_only_changes_that_setting() {
    let config = Web2llmConfig::default().with_robots_check(false);
    assert!(!config.robots_check);
    assert_eq!(config.rate_limit, 5);
    assert!(config.block_private_hosts);
}

fn config_error(config: &Web2llmConfig) -> String {
    match validate_config(config) {
        Err(Web2llmError::Config(m)) => m,
        other => panic!("unexpected {:?}", other.err()),
    }
}

#[test]
fn invalid_configs_are_rejected_in_order() {
    let mut c = Web2llmConfig::default();
    c.rate_limit = 0;
    c.max_concurrency = 0;
    assert_eq!(config_error(&c), "rate_limit must be greater than zero");
    let mut c = Web2llmConfig::default();
    c.max_concurrency = 0;
    c.sensitivity_bits = 2.0f32.to_bits();
    assert_eq!(config_error(&c), "max_concurrency must be greater than zero");
    let mut c = Web2llmConfig::default();
    c.sensitivity_bits = (-0.25f32).to_bits();
    assert_eq!(config_error(&c), "sensitivity must be between 0.0 and 1.0");
    c.sensitivity_bits = 1.5f32.to_bits();
    assert_eq!(config_error(&c), "sensitivity must be between 0.0 and 1.0");
}

#[test]
fn unit_interval_bounds_are_accepted() {
    let mut c = Web2llmConfig::default();
    for s in [0.0f32, -0.0, 1.0, 0.5] {
        c.sensitivity_bits = s.to_bits();
        assert!(validate_config(&c).is_ok(), "{}", s);
    }
    c.sensitivity_bits = f32::NAN.to_bits();
    assert!(validate_config(&c).is_err());
    c.sensitivity_bits = (-f32::NAN).to_bits();
    assert!(validate_config(&c).is_err());
    c.sensitivity_bits = f32::INFINITY.to_bits();
    assert!(validate_config(&c).is_err());
}

#[test]
fn timeout_zero_detection() {
    assert!(Timeout::from_secs(0).is_zero());
    assert!(!Timeout::from_secs(1).is_zero());
    assert!(!Timeout { secs: 0, nanos: 1 }.is_zero());
}
