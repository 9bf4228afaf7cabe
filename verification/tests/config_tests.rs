//! Tests of the configuration defaults.

use datacube::config::{
    Config, default_calc_prefix, default_max_results, default_socket_path, default_terminal,
    default_true,
};

#[test]
fn defaults_match_the_documented_values() {
    assert_eq!(default_max_results(), 50);
    assert!(default_true());
    assert_eq!(default_terminal(), "foot");
    assert_eq!(default_calc_prefix(), "=");
}

#[test]
fn default_config_enables_both_configured_providers() {
    let config = Config::default();
    assert_eq!(config.max_results, 50);
    assert!(config.providers.applications.enabled);
    assert!(config.providers.calculator.enabled);
    assert_eq!(config.providers.calculator.prefix, "=");
    assert!(config.socket_path.is_empty());
}

#[test]
fn socket_path_lives_under_the_runtime_directory() {
    assert_eq!(default_socket_path("/run/user/1000"), "/run/user/1000/datacube.sock");
}
