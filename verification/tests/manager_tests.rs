//! Tests of the provider manager: registration, listing, fan-out queries,
//! merging, and activation routing.

use datacube::applications::ApplicationsProvider;
use datacube::calculator::CalculatorProvider;
use datacube::command::CommandProvider;
use datacube::index::{Candidate, FsEvent, Origin, RawEntry, SourceDir};
use datacube::item::Item;
use datacube::manager::{ProviderManager, RegisteredProvider};

fn raw_app(name: &str) -> RawEntry {
    RawEntry {
        no_display: false,
        name: Some(name.to_string()),
        generic_name: None,
        comment: None,
        exec_cmd: Some(name.to_lowercase()),
        icon: None,
        keywords: Vec::new(),
        terminal: false,
    }
}

fn manager_with_all() -> ProviderManager {
    let dirs = vec![SourceDir { path: "/apps".to_string(), origin: Origin::Native }];
    let files = vec![
        Candidate { path: "/apps/firefox.desktop".to_string(), raw: raw_app("Firefox") },
    ];
    let mut apps = ApplicationsProvider::new();
    apps.load(dirs, files);
    let mut manager = ProviderManager::new();
    manager.register(RegisteredProvider::Applications(apps));
    manager.register(RegisteredProvider::Calculator(CalculatorProvider::new()));
    manager.register(RegisteredProvider::Command(CommandProvider::new()));
    manager
}

#[test]
fn listing_reports_registered_providers_in_order() {
    let mut manager = ProviderManager::new();
    manager.register(RegisteredProvider::Calculator(CalculatorProvider::new()));
    manager.register(RegisteredProvider::Command(CommandProvider::new()));
    let infos = manager.list_providers();
    assert_eq!(infos.len(), 2);
    assert_eq!(infos[0].name, "calculator");
    assert_eq!(infos[0].prefix.as_deref(), Some("="));
    assert!(infos[0].enabled);
    assert_eq!(infos[1].name, "command");
    assert_eq!(infos[1].prefix.as_deref(), Some("/"));
}

#[test]
fn fan_out_dispatches_by_prefix_and_caps_the_merge() {
    let manager = manager_with_all();
    let items = manager.query("firefox", 10, &Vec::new());
    assert!(items.len() <= 10);
    assert!(items.len() >= 1);
    // Only the prefixless applications provider handles this query.
    for it in &items {
        assert_eq!(it.provider, "applications");
    }
}

#[test]
fn prefixed_query_reaches_the_calculator() {
    let manager = manager_with_all();
    let items = manager.query("=2+2", 10, &Vec::new());
    assert!(items.iter().any(|it| it.provider == "calculator" && it.text == "4"));
    // The applications provider was also asked, but nothing there matches.
    assert!(items.iter().all(|it| it.provider != "command"));
}

#[test]
fn explicit_provider_list_overrides_routing() {
    let manager = manager_with_all();
    let items = manager.query("=2+2", 10, &vec!["command".to_string()]);
    assert!(items.iter().all(|it| it.provider == "command"));
    assert_eq!(items.len(), 1);
}

#[test]
fn merged_results_are_sorted_by_descending_score() {
    let manager = manager_with_all();
    let items = manager.query("f", 10, &Vec::new());
    for pair in items.windows(2) {
        assert!(pair[0].score >= pair[1].score);
    }
}

#[test]
fn activation_routes_to_the_named_provider() {
    let manager = manager_with_all();
    let item = Item::new("Run: htop", "command").with_exec("htop".to_string());
    let plan = manager.activate(&item, None).unwrap();
    assert!(plan.terminal);
    assert_eq!(plan.command, "htop; echo; echo 'Press Enter to close...'; read");
}

#[test]
fn activation_of_unknown_provider_is_reported() {
    let manager = manager_with_all();
    let item = Item::new("x", "nonexistent");
    let err = manager.activate(&item, None).unwrap_err();
    assert_eq!(err, "Unknown provider: nonexistent");
}

#[test]
fn calculator_items_cannot_be_activated() {
    let manager = manager_with_all();
    let item = Item::new("4", "calculator");
    assert!(manager.activate(&item, None).is_err());
}

#[test]
fn watch_events_reach_the_registered_index() {
    let mut manager = manager_with_all();
    manager.apply_app_event(
        FsEvent::Created { path: "/apps/new.desktop".to_string() },
        Some(raw_app("Newcomer")),
    );
    let items = manager.query("newcomer", 10, &Vec::new());
    assert!(items.iter().any(|it| it.text == "Newcomer"));
}
