//! Tests of the wire protocol: framing, message-type codes, and the
//! request handlers' decisions.

use datacube::calculator::CalculatorProvider;
use datacube::command::CommandProvider;
use datacube::manager::{ProviderManager, RegisteredProvider};
use datacube::protocol::{
    ActivateStep, MessageType, QueryRequest, encode_frame, handle_activate, handle_list_providers,
    handle_query, parse_header,
};
use datacube::item::Item;

fn small_manager() -> ProviderManager {
    let mut manager = ProviderManager::new();
    manager.register(RegisteredProvider::Calculator(CalculatorProvider::new()));
    manager.register(RegisteredProvider::Command(CommandProvider::new()));
    manager
}

#[test]
fn message_type_codes_round_trip() {
    let all = [
        MessageType::Query,
        MessageType::QueryResponse,
        MessageType::Activate,
        MessageType::ActivateResponse,
        MessageType::ListProviders,
        MessageType::ListProvidersResponse,
    ];
    for t in all {
        assert_eq!(MessageType::from_code(t.code()), Some(t));
    }
    assert_eq!(MessageType::Query.code(), 1);
    assert_eq!(MessageType::ListProvidersResponse.code(), 6);
    assert_eq!(MessageType::from_code(0), None);
    assert_eq!(MessageType::from_code(7), None);
}

#[test]
fn frames_carry_type_length_and_payload() {
    let payload: Vec<u8> = vec![9, 8, 7];
    let frame = encode_frame(MessageType::Query, &payload);
    assert_eq!(frame, vec![1, 0, 0, 0, 3, 9, 8, 7]);
}

#[test]
fn frame_header_round_trips_large_lengths() {
    let payload: Vec<u8> = vec![0; 300];
    let frame = encode_frame(MessageType::Activate, &payload);
    assert_eq!(frame.len(), 5 + 300);
    let header: Vec<u8> = frame[..5].to_vec();
    let (msg_type, length) = parse_header(&header);
    assert_eq!(msg_type, 3);
    assert_eq!(length, 300);
}

#[test]
fn query_handler_keeps_query_and_issues_fresh_ids() {
    let manager = small_manager();
    let request = QueryRequest {
        query: "=1+1".to_string(),
        max_results: 10,
        providers: Vec::new(),
        exact: false,
    };
    let response = handle_query(&manager, request, 50);
    assert_eq!(response.query, "=1+1");
    assert_eq!(response.qid.len(), 36);
    assert_eq!(response.items.len(), 1);
    assert_eq!(response.items[0].text, "2");
}

#[test]
fn query_handler_falls_back_to_the_default_cap() {
    let manager = small_manager();
    let request = QueryRequest {
        query: "=1+1".to_string(),
        max_results: 0,
        providers: Vec::new(),
        exact: false,
    };
    let response = handle_query(&manager, request, 1);
    assert_eq!(response.items.len(), 1);
}

#[test]
fn activate_without_item_reports_missing_item() {
    let manager = small_manager();
    match handle_activate(&manager, None, String::new()) {
        ActivateStep::Respond(resp) => {
            assert!(!resp.success);
            assert_eq!(resp.error, "Missing item");
        },
        ActivateStep::Launch(_) => panic!("an activation without an item must not launch"),
    }
}

#[test]
fn activate_with_unknown_provider_reports_failure() {
    let manager = small_manager();
    let item = Item::new("x", "nonexistent");
    match handle_activate(&manager, Some(item), String::new()) {
        ActivateStep::Respond(resp) => {
            assert!(!resp.success);
            assert_eq!(resp.error, "Unknown provider: nonexistent");
        },
        ActivateStep::Launch(_) => panic!("an unknown provider must not launch"),
    }
}

#[test]
fn activate_with_command_item_plans_a_launch() {
    let manager = small_manager();
    let item = Item::new("Run: ls", "command").with_exec("ls".to_string());
    match handle_activate(&manager, Some(item), String::new()) {
        ActivateStep::Launch(plan) => {
            assert!(plan.terminal);
            assert_eq!(plan.command, "ls; echo; echo 'Press Enter to close...'; read");
        },
        ActivateStep::Respond(_) => panic!("a command item must produce a launch plan"),
    }
}

#[test]
fn listing_handler_reports_descriptors() {
    let manager = small_manager();
    let response = handle_list_providers(&manager);
    assert_eq!(response.providers.len(), 2);
    assert_eq!(response.providers[0].name, "calculator");
    assert_eq!(response.providers[1].name, "command");
}

#[test]
fn fresh_item_ids_are_unique() {
    let a = Item::new("a", "command");
    let b = Item::new("b", "command");
    assert_eq!(a.id.len(), 36);
    assert_ne!(a.id, b.id);
}
