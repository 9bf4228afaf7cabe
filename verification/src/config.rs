//! Configuration data.
//!
//! The values a running service is configured with. Reading a configuration
//! file, and discovering the runtime directory from the environment, happen
//! in the embedding program; the defaults and the shapes live here.

use vstd::prelude::*;
use vstd::string::*;

verus! {

/// Main configuration.
#[derive(Debug)]
pub struct Config {
    /// Path of the listening socket. The default is empty; the embedding
    /// program derives the real default from the runtime directory with
    /// `default_socket_path`.
    pub socket_path: String,
    /// Maximum results per provider.
    pub max_results: usize,
    /// Provider-specific configuration.
    pub providers: ProvidersConfig,
}

/// Provider-specific configuration.
#[derive(Debug)]
pub struct ProvidersConfig {
    pub applications: ApplicationsConfig,
    pub calculator: CalculatorConfig,
}

/// Applications provider configuration.
#[derive(Debug)]
pub struct ApplicationsConfig {
    /// Whether this provider is enabled.
    pub enabled: bool,
    /// Terminal emulator used for terminal applications.
    pub terminal: String,
    /// Additional directories searched for application entries.
    pub extra_dirs: Vec<String>,
}

/// Calculator provider configuration.
#[derive(Debug)]
pub struct CalculatorConfig {
    /// Whether this provider is enabled.
    pub enabled: bool,
    /// Prefix that triggers the calculator.
    pub prefix: String,
}

pub fn default_max_results() -> (r: usize)
    ensures
        r == 50,
{
    50
}

pub fn default_true() -> (r: bool)
    ensures
        r,
{
    true
}

pub fn default_terminal() -> (r: String)
    ensures
        r@ == "foot"@,
{
    String::from_str("foot")
}

pub fn default_calc_prefix() -> (r: String)
    ensures
        r@ == "="@,
{
    String::from_str("=")
}

/// The default socket path under a runtime directory.
pub fn default_socket_path(runtime_dir: &str) -> (r: String)
    ensures
        r@ == runtime_dir@ + "/datacube.sock"@,
{
    let mut r = runtime_dir.to_owned();
    r.append("/datacube.sock");
    r
}

impl Default for ApplicationsConfig {
    fn default() -> (r: Self)
        ensures
            r.enabled,
            r.terminal@ == "foot"@,
            r.extra_dirs@.len() == 0,
    {
        ApplicationsConfig { enabled: default_true(), terminal: default_terminal(), extra_dirs: Vec::new() }
    }
}

impl Default for CalculatorConfig {
    fn default() -> (r: Self)
        ensures
            r.enabled,
            r.prefix@ == "="@,
    {
        CalculatorConfig { enabled: default_true(), prefix: default_calc_prefix() }
    }
}

impl Default for ProvidersConfig {
    fn default() -> (r: Self)
        ensures
            r.applications.enabled,
            r.applications.terminal@ == "foot"@,
            r.applications.extra_dirs@.len() == 0,
            r.calculator.enabled,
            r.calculator.prefix@ == "="@,
    {
        ProvidersConfig {
            applications: ApplicationsConfig::default(),
            calculator: CalculatorConfig::default(),
        }
    }
}

impl Default for Config {
    fn default() -> (r: Self)
        ensures
            r.socket_path@.len() == 0,
            r.max_results == 50,
            r.providers.applications.enabled,
            r.providers.calculator.enabled,
    {
        Config {
            socket_path: String::new(),
            max_results: default_max_results(),
            providers: ProvidersConfig::default(),
        }
    }
}

} // verus!
