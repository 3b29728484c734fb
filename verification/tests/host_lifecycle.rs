//! The lifecycle latch, the plugin registry, and the governance event
//! classifier.

use rust_bot_plugin::lifecycle::{fresh_state, init, start, stop, shutdown};
use rust_bot_plugin::host::{PluginRegistry, FsEventKind, HostAction, is_library_path};
use rust_bot_plugin::agent::governance::proposals::{
    classify_governance_event, text_contains, GovernanceEventKind, GovernanceProposalView,
    get_proposal_view_entry_key, get_proposal_entry_key,
};
use rust_bot_plugin::agent::governance::params::get_params_entry_key;
use rust_bot_plugin::agent::governance::tally_results::get_tally_result_entry_key;
use rust_bot_plugin::agent::staking::pool::get_pool_entry_key;
use rust_bot_plugin::agent::fraud_detection::{
    get_relevant_text, get_fraud_classification_entry_key,
};

#[test]
fn init_twice_acts_once() {
    let mut s = fresh_state();
    assert!(!s.initialized);
    init(&mut s);
    let after_first = s;
    init(&mut s);
    assert_eq!(s, after_first);
    assert!(s.initialized);
}

#[test]
fn start_only_after_init() {
    let mut s = fresh_state();
    assert!(!start(&mut s));
    assert!(!s.started);
    init(&mut s);
    assert!(start(&mut s));
    assert!(s.started);
    assert!(!s.cancelled);
}

#[test]
fn stop_raises_the_flag_and_shutdown_drops_the_runtime() {
    let mut s = fresh_state();
    init(&mut s);
    start(&mut s);
    stop(&mut s);
    assert!(s.cancelled);
    assert!(s.runtime_alive);
    shutdown(&mut s);
    assert!(s.cancelled);
    assert!(!s.runtime_alive);
}

#[test]
fn library_paths_end_in_the_shared_extension() {
    assert!(is_library_path(&"./bin/lib/x.so".to_string()));
    assert!(is_library_path(&"a.so".to_string()));
    assert!(!is_library_path(&"x.txt".to_string()));
    assert!(!is_library_path(&"so".to_string()));
    assert!(!is_library_path(&"".to_string()));
}

#[test]
fn hot_reload_calls_the_hooks_in_order() {
    let mut reg = PluginRegistry::new();
    let path = "./bin/lib/x.so".to_string();
    // A new library is initialized and started.
    let actions = reg.on_fs_event(FsEventKind::Create, &path, 7);
    assert_eq!(actions, vec![HostAction::InitPlugin(7), HostAction::StartPlugin(7)]);
    // Overwriting it shuts the old handle down before starting the new one.
    let actions = reg.on_fs_event(FsEventKind::Modify, &path, 8);
    assert_eq!(
        actions,
        vec![
            HostAction::ShutdownPlugin(7),
            HostAction::InitPlugin(8),
            HostAction::StartPlugin(8),
        ]
    );
    // Deleting it shuts it down and forgets it.
    let actions = reg.on_fs_event(FsEventKind::Remove, &path, 0);
    assert_eq!(actions, vec![HostAction::ShutdownPlugin(8)]);
    let actions = reg.on_fs_event(FsEventKind::Remove, &path, 0);
    assert_eq!(actions, Vec::<HostAction>::new());
    // Files that are no shared libraries are ignored.
    let actions = reg.on_fs_event(FsEventKind::Create, &"readme.txt".to_string(), 9);
    assert_eq!(actions, Vec::<HostAction>::new());
}

#[test]
fn governance_events_classify_by_prefix() {
    assert_eq!(
        classify_governance_event("task_store_key_governance_proposal_kujira_5_rev_0"),
        Some(GovernanceEventKind::Proposal)
    );
    assert_eq!(
        classify_governance_event("governance_fraud_detection_kujira_5_123"),
        Some(GovernanceEventKind::FraudClassification)
    );
    assert_eq!(
        classify_governance_event("governance_tally_result_kujira5"),
        Some(GovernanceEventKind::TallyResult)
    );
    assert_eq!(
        classify_governance_event("governance_params_kujira_voting"),
        Some(GovernanceEventKind::Params)
    );
    assert_eq!(
        classify_governance_event("governance_validator_kujira_77"),
        Some(GovernanceEventKind::Validator)
    );
    assert_eq!(
        classify_governance_event("governance_pool_kujira"),
        Some(GovernanceEventKind::Pool)
    );
    assert_eq!(classify_governance_event("something_else"), None);
    assert!(text_contains("abcde", "cd"));
    assert!(!text_contains("abcde", "ce"));
    assert!(text_contains("abc", ""));
}

#[test]
fn entry_keys_have_their_documented_shape() {
    assert_eq!(get_proposal_entry_key("kujira", 5), "governance_proposal_kujira_5");
    assert_eq!(get_params_entry_key("kujira", "voting"), "governance_params_kujira_voting");
    assert_eq!(get_tally_result_entry_key("kujira", 5), "governance_tally_result_kujira5");
    assert_eq!(get_pool_entry_key("kujira"), "governance_pool_kujira");
    assert_eq!(
        get_fraud_classification_entry_key("kujira", 5, 99),
        "governance_fraud_detection_kujira_5_99"
    );
    assert_eq!(get_relevant_text("Title", "Body"), "Title\n\nBody");
}

#[test]
fn proposal_view_keeps_its_values_and_labels() {
    let view = GovernanceProposalView::new(
        "5".to_string(),
        "kujira".to_string(),
        "Kujira".to_string(),
        "text".to_string(),
        "A title".to_string(),
        "A description".to_string(),
        "https".to_string(),
        "icon".to_string(),
        "dp".to_string(),
        "vp".to_string(),
        "tp".to_string(),
        None,
        None,
        None,
        None,
        "state".to_string(),
        None,
        "updated".to_string(),
        "submitted".to_string(),
        "0".to_string(),
        "0".to_string(),
        "false".to_string(),
    );
    assert_eq!(view.proposal_id, "5");
    assert_eq!(view.proposal_blockchain_name, "kujira");
    assert_eq!(view.website_language_label, "Language:");
    assert_eq!(get_proposal_view_entry_key(&view), "governance_proposal_kujira_5");
}
