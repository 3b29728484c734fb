//! The scheduler model, the backoff rule, and the agents' task selection.

use rust_bot_plugin::interface::{Agent, ManagerState, TaskResult, backoff_delay};
use rust_bot_plugin::agent::dummy::{DummyAgent, DummyTasks};
use rust_bot_plugin::agent::governance::params::{ParamsAgent, ParamsTasks};
use rust_bot_plugin::agent::governance::ProposalStatus;

#[test]
fn backoff_formula_exact_values() {
    assert_eq!(backoff_delay(1, 0), 2);
    assert_eq!(backoff_delay(2, 1), 5);
    assert_eq!(backoff_delay(5, 2), 12);
    assert_eq!(backoff_delay(149, 74), 300);
    assert_eq!(backoff_delay(200, 50), 300);
}

#[test]
fn backoff_progression_and_reset() {
    // With baseline 1: three failures produce (2 + j0), then doubling with
    // jitter at each step, clamped at 300; a success resets to the baseline.
    let mut agent = DummyAgent::default();
    let task = DummyTasks::DummyTask;
    assert_eq!(agent.get_retry_delay_in_secs(&task), 1);
    agent.exponential_backoff_with_jitter(&task);
    let d1 = agent.get_retry_delay_in_secs(&task);
    assert_eq!(d1, 2); // jitter range for delay 1 is 0..=0
    agent.exponential_backoff_with_jitter(&task);
    let d2 = agent.get_retry_delay_in_secs(&task);
    assert!(d2 >= d1 * 2 && d2 <= d1 * 2 + d1 / 2 && d2 <= 300);
    agent.exponential_backoff_with_jitter(&task);
    let d3 = agent.get_retry_delay_in_secs(&task);
    assert!(d3 >= d2 * 2 && d3 <= d2 * 2 + d2 / 2 && d3 <= 300);
    agent.reset_retry_delay(&task);
    assert_eq!(agent.get_retry_delay_in_secs(&task), 1);
}

#[test]
fn backoff_never_exceeds_clamp() {
    let mut agent = DummyAgent::default();
    let task = DummyTasks::DummyTask;
    for _ in 0..20 {
        agent.exponential_backoff_with_jitter(&task);
        assert!(agent.get_retry_delay_in_secs(&task) <= 300);
    }
    assert_eq!(agent.get_retry_delay_in_secs(&task), 300);
}

#[test]
fn task_result_carries_outcome() {
    let ok = TaskResult::new(DummyTasks::DummyTask, Ok(()));
    assert!(ok.task_result.is_ok());
    let err = TaskResult::new(DummyTasks::DummyTask, Err("boom".to_string()));
    assert_eq!(err.task_result.unwrap_err(), "boom");
}

#[test]
fn no_double_dispatch_for_a_pending_task() {
    // Once a task instance is pending, enumerating tasks returns nothing for
    // it, so no second worker is ever spawned for the same instance.
    let agent = DummyAgent::default();
    let first = agent.get_tasks(&Vec::new());
    assert_eq!(first.len(), 1);
    let second = agent.get_tasks(&vec![DummyTasks::DummyTask]);
    assert_eq!(second.len(), 0);
}

#[test]
fn manager_tracks_one_worker_per_instance() {
    let mut m = ManagerState::new();
    let key = "dummy".to_string();
    assert!(!m.is_pending_key(&key));
    m.spawn(&key, 1);
    assert!(m.is_pending_key(&key));
    // The worker finishes; its result sits in the delay queue and the
    // instance stays pending until the delay expires.
    let finished = m.finish(1);
    assert_eq!(finished, "dummy");
    assert!(m.is_pending_key(&key));
    m.expire(&key, true, 1700000000);
    assert!(!m.is_pending_key(&key));
    // The next cycle may spawn the instance again under a fresh worker.
    m.spawn(&key, 2);
    assert!(m.is_pending_key(&key));
}

#[test]
fn manager_records_aborted_workers() {
    let mut m = ManagerState::new();
    let key = "dummy".to_string();
    m.spawn(&key, 7);
    m.abort(7, true, 1700000000);
    assert!(!m.is_pending_key(&key));
    m.spawn(&key, 8);
    m.abort(8, false, 1700000001);
    assert!(!m.is_pending_key(&key));
}

#[test]
fn params_agent_enumerates_blockchains_times_types() {
    let mut agent = ParamsAgent::default();
    agent.known_blockchains = vec!["osmosis".to_string(), "kujira".to_string()];
    let all = agent.get_tasks(&Vec::new());
    assert_eq!(all.len(), 6);
    let pending = vec![ParamsTasks {
        blockchain_name: "osmosis".to_string(),
        params_type: "voting".to_string(),
    }];
    let rest = agent.get_tasks(&pending);
    assert_eq!(rest.len(), 5);
    assert!(rest.iter().all(|t| {
        !(t.blockchain_name == "osmosis" && t.params_type == "voting")
    }));
}

#[test]
fn proposal_statuses_enumerate_in_order() {
    let all = ProposalStatus::all();
    assert_eq!(all.len(), 6);
    assert_eq!(all[0], ProposalStatus::StatusNil);
    assert_eq!(all[2], ProposalStatus::StatusVotingPeriod);
    assert_eq!(all[0].status_text(), "StatusNil");
    assert_eq!(all[1].status_text(), "StatusDepositPeriod");
}
