//! Tests of the providers: calculator evaluation, command items, fuzzy
//! scoring of applications, and launch-command cleaning.

use datacube::applications::{ApplicationsProvider, clean_exec};
use datacube::calculator::CalculatorProvider;
use datacube::command::CommandProvider;
use datacube::index::{Candidate, Origin, RawEntry, SourceDir};
use datacube::score::normalize_score;

fn raw_app(name: &str, keywords: Vec<&str>) -> RawEntry {
    RawEntry {
        no_display: false,
        name: Some(name.to_string()),
        generic_name: Some("Web Browser".to_string()),
        comment: Some("Browse the web".to_string()),
        exec_cmd: Some(format!("{} %u", name.to_lowercase())),
        icon: Some(name.to_lowercase()),
        keywords: keywords.iter().map(|k| k.to_string()).collect(),
        terminal: false,
    }
}

fn loaded_provider() -> ApplicationsProvider {
    let dirs = vec![SourceDir { path: "/apps".to_string(), origin: Origin::Native }];
    let files = vec![
        Candidate { path: "/apps/firefox.desktop".to_string(), raw: raw_app("Firefox", vec!["internet"]) },
        Candidate { path: "/apps/editor.desktop".to_string(), raw: raw_app("Editor", vec!["text"]) },
    ];
    let mut p = ApplicationsProvider::new();
    p.load(dirs, files);
    p
}

#[test]
fn calculator_evaluates_expression() {
    let calc = CalculatorProvider::new();
    let items = calc.query_impl("=2+2", 10);
    assert_eq!(items.len(), 1);
    assert_eq!(items[0].text, "4");
    assert_eq!(items[0].subtext, "2+2 =");
    assert_eq!(items[0].provider, "calculator");
    assert_eq!(items[0].score, 1000);
}

#[test]
fn calculator_trims_and_strips_prefix() {
    let calc = CalculatorProvider::new();
    let items = calc.query_impl("=  3*7  ", 10);
    assert_eq!(items[0].text, "21");
    assert_eq!(items[0].subtext, "3*7 =");
}

#[test]
fn calculator_rejects_bad_expression() {
    let calc = CalculatorProvider::new();
    let items = calc.query_impl("=2+!", 10);
    assert_eq!(items.len(), 1);
    assert_eq!(items[0].text, "Invalid expression");
    assert_eq!(items[0].score, 500);
}

#[test]
fn calculator_empty_expression_gives_hint() {
    let calc = CalculatorProvider::new();
    let items = calc.query_impl("=", 10);
    assert_eq!(items.len(), 1);
    assert_eq!(items[0].text, "Enter an expression (e.g., 2+2)");
}

#[test]
fn command_offers_runnable_item() {
    let cmd = CommandProvider::new();
    let items = cmd.query_impl("/htop", 10);
    assert_eq!(items.len(), 1);
    assert_eq!(items[0].text, "Run: htop");
    assert_eq!(items[0].exec_cmd, "htop");
    assert_eq!(items[0].provider, "command");
    let action_ids: Vec<&str> = items[0].actions.iter().map(|a| a.id.as_str()).collect();
    assert_eq!(action_ids, vec!["run", "run_terminal", "copy"]);
}

#[test]
fn command_activation_keeps_terminal_open() {
    let cmd = CommandProvider::new();
    let items = cmd.query_impl("/htop", 10);
    let plan = cmd.activate_impl(&items[0]).unwrap();
    assert!(plan.terminal);
    assert_eq!(plan.command, "htop; echo; echo 'Press Enter to close...'; read");
}

#[test]
fn applications_find_fuzzy_matches() {
    let p = loaded_provider();
    let items = p.query_impl("firefox", 10);
    assert_eq!(items.len(), 1);
    assert_eq!(items[0].text, "Firefox");
    assert_eq!(items[0].subtext, "Browse the web");
    assert_eq!(items[0].exec_cmd, "firefox");
    assert!(items[0].score > 0);
}

#[test]
fn applications_match_case_insensitively() {
    let p = loaded_provider();
    let items = p.query_impl("FIREFOX", 10);
    assert_eq!(items.len(), 1);
    assert_eq!(items[0].text, "Firefox");
}

#[test]
fn applications_match_through_keywords() {
    let p = loaded_provider();
    let items = p.query_impl("internet", 10);
    assert!(items.iter().any(|it| it.text == "Firefox"));
}

#[test]
fn applications_ignore_unrelated_queries() {
    let p = loaded_provider();
    let items = p.query_impl("zzqqy", 10);
    assert_eq!(items.len(), 0);
}

#[test]
fn applications_respect_the_cap() {
    let p = loaded_provider();
    let items = p.query_impl("e", 1);
    assert!(items.len() <= 1);
}

#[test]
fn empty_query_browses_all_entries() {
    let p = loaded_provider();
    let items = p.query_impl("", 10);
    assert_eq!(items.len(), 2);
    for it in &items {
        assert_eq!(it.provider, "applications");
    }
}

#[test]
fn exact_name_outranks_keyword_only_match() {
    let dirs = vec![SourceDir { path: "/apps".to_string(), origin: Origin::Native }];
    let files = vec![
        Candidate { path: "/apps/direct.desktop".to_string(), raw: raw_app("Direct", vec![]) },
        Candidate {
            path: "/apps/other.desktop".to_string(),
            raw: raw_app("Unrelated", vec!["direct"]),
        },
    ];
    let mut p = ApplicationsProvider::new();
    p.load(dirs, files);
    let items = p.query_impl("direct", 10);
    assert!(items.len() >= 2);
    assert_eq!(items[0].text, "Direct");
    assert!(items[0].score > items[1].score);
}

#[test]
fn clean_exec_strips_field_codes() {
    assert_eq!(clean_exec("firefox %u"), "firefox");
    assert_eq!(clean_exec("editor %F --flag"), "editor  --flag");
    assert_eq!(clean_exec("  spaced  "), "spaced");
    assert_eq!(clean_exec("plain"), "plain");
}

#[test]
fn normalize_clamps_to_the_unit_range() {
    assert_eq!(normalize_score(-5), 0);
    assert_eq!(normalize_score(0), 0);
    assert_eq!(normalize_score(1000), 500);
    assert_eq!(normalize_score(2000), 1000);
    assert_eq!(normalize_score(99999), 1000);
}

#[test]
fn test_format_result() {
    let calc = CalculatorProvider::new();
    assert_eq!(calc.query_impl("=42", 10)[0].text, "42");
    assert_eq!(calc.query_impl("=3.14159", 10)[0].text, "3.14159");
    assert_eq!(calc.query_impl("=1/0", 10)[0].text, "Infinity");
    assert_eq!(calc.query_impl("=-1/0", 10)[0].text, "-Infinity");
}

#[test]
fn duplicate_identifiers_across_directories_surface_once() {
    let dirs = vec![
        SourceDir { path: "/apps".to_string(), origin: Origin::Native },
        SourceDir { path: "/flatpak".to_string(), origin: Origin::Sandboxed },
    ];
    let files = vec![
        Candidate { path: "/apps/firefox.desktop".to_string(), raw: raw_app("Firefox", vec![]) },
        Candidate {
            path: "/flatpak/firefox.desktop".to_string(),
            raw: raw_app("Firefox", vec![]),
        },
    ];
    let mut p = ApplicationsProvider::new();
    p.load(dirs, files);
    let items = p.query_impl("firefox", 10);
    assert_eq!(items.len(), 1);
    let ids: Vec<Option<&String>> = items
        .iter()
        .map(|it| it.metadata.iter().find(|(k, _)| k == "desktop_id").map(|(_, v)| v))
        .collect();
    assert_eq!(ids, vec![Some(&"firefox".to_string())]);
}

#[test]
fn trigger_prefix_only_routes() {
    let calc = CalculatorProvider::new();
    let with_prefix = &calc.query_impl("=2+2", 10)[0];
    let without_prefix = &calc.query_impl("2+2", 10)[0];
    assert_ne!(with_prefix.id, without_prefix.id);
    assert_eq!(with_prefix.text, without_prefix.text);
    assert_eq!(with_prefix.subtext, without_prefix.subtext);
    assert_eq!(with_prefix.icon, without_prefix.icon);
    assert_eq!(with_prefix.score, without_prefix.score);
    assert_eq!(with_prefix.exec_cmd, without_prefix.exec_cmd);
    assert_eq!(with_prefix.metadata, without_prefix.metadata);
    assert!(with_prefix.actions.is_empty() && without_prefix.actions.is_empty());
}
