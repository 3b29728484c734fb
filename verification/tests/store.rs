//! The versioned entry store against a real embedded database.

use rust_bot_plugin::fallback_entry_store::FallbackEntryStore;
use rust_bot_plugin::entry::{Entry, EntryError, RetrievalMethod};
use rust_bot_plugin::sled_store::StoreError;
use std::time::Duration;
use rust_bot_plugin::agent::{
    get_next_index, set_next_index, get_next_key, set_next_key, apply_pagination_outcome,
    CheckpointOutcome,
};

fn fresh_store() -> (FallbackEntryStore, sled::Db) {
    let db = sled::Config::new().temporary(true).open().expect("open temporary db");
    let inspect = db.clone();
    (FallbackEntryStore::new(db, "task_store_"), inspect)
}

fn revision_cells(inspect: &sled::Db, key: &str) -> Vec<u64> {
    let prefix = format!("task_store_key_{}_rev_", key);
    let mut revs: Vec<u64> = inspect
        .scan_prefix(prefix.as_bytes())
        .map(|item| {
            let (k, _) = item.unwrap();
            let text = String::from_utf8(k.to_vec()).unwrap();
            text[prefix.len()..].parse::<u64>().unwrap()
        })
        .collect();
    revs.sort();
    revs
}

#[test]
fn get_returns_last_written_entry() {
    let (mut store, _inspect) = fresh_store();
    store.insert("k", Ok(b"one".to_vec())).unwrap();
    store.insert("k", Ok(b"two".to_vec())).unwrap();
    store.insert("k", Ok(b"three".to_vec())).unwrap();
    let entry = store.get("k", &RetrievalMethod::Get).unwrap();
    assert_eq!(entry.data.unwrap(), b"three".to_vec());
}

#[test]
fn get_on_unknown_key_reports_key_does_not_exist() {
    let (store, _inspect) = fresh_store();
    let entry = store.get("missing", &RetrievalMethod::Get).unwrap();
    assert!(matches!(entry.data, Err(EntryError::KeyDoesNotExist(_))));
}

#[test]
fn getok_returns_newest_success() {
    let (mut store, _inspect) = fresh_store();
    store.insert("k", Ok(b"a".to_vec())).unwrap();
    store.insert("k", Err(EntryError::Error("x".to_string()))).unwrap();
    let entry = store.get("k", &RetrievalMethod::GetOk).unwrap();
    assert_eq!(entry.data.unwrap(), b"a".to_vec());
}

#[test]
fn getok_fails_when_no_success_exists() {
    let (mut store, _inspect) = fresh_store();
    store.insert("k", Err(EntryError::Error("x".to_string()))).unwrap();
    assert!(matches!(
        store.get("k", &RetrievalMethod::GetOk),
        Err(StoreError::NoOkValueFound(_))
    ));
    assert!(matches!(
        store.get("missing", &RetrievalMethod::GetOk),
        Err(StoreError::NoOkValueFound(_))
    ));
}

#[test]
fn versioned_insert_latest_ok_scenario() {
    // Ok("a"), Err(E("x")), Ok("b"), Err(E("y")): the current revision holds
    // the error, the newest success is "b", and only revisions {2, 3} remain.
    let (mut store, inspect) = fresh_store();
    store.insert("k", Ok(b"a".to_vec())).unwrap();
    store.insert("k", Err(EntryError::Error("x".to_string()))).unwrap();
    store.insert("k", Ok(b"b".to_vec())).unwrap();
    store.insert("k", Err(EntryError::Error("y".to_string()))).unwrap();
    let current = store.get("k", &RetrievalMethod::Get).unwrap();
    assert!(matches!(current.data, Err(EntryError::Error(ref t)) if t == "y"));
    let ok = store.get("k", &RetrievalMethod::GetOk).unwrap();
    assert_eq!(ok.data.unwrap(), b"b".to_vec());
    assert_eq!(revision_cells(&inspect, "k"), vec![2, 3]);
}

#[test]
fn insert_prunes_history_to_newest_success() {
    // After each insert the live revisions run from the newest success up to
    // the counter.
    let (mut store, inspect) = fresh_store();
    store.insert("k", Ok(b"a".to_vec())).unwrap();
    store.insert("k", Err(EntryError::Error("x".to_string()))).unwrap();
    assert_eq!(revision_cells(&inspect, "k"), vec![0, 1]);
    store.insert("k", Ok(b"b".to_vec())).unwrap();
    assert_eq!(revision_cells(&inspect, "k"), vec![2]);
    store.insert("k", Err(EntryError::Error("y".to_string()))).unwrap();
    store.insert("k", Err(EntryError::Error("z".to_string()))).unwrap();
    assert_eq!(revision_cells(&inspect, "k"), vec![2, 3, 4]);
}

#[test]
fn insert_if_not_exists_is_idempotent() {
    let (mut store, inspect) = fresh_store();
    assert_eq!(store.insert_if_not_exists("k", Ok(b"v".to_vec())).unwrap(), true);
    assert_eq!(store.insert_if_not_exists("k", Ok(b"v".to_vec())).unwrap(), false);
    assert_eq!(revision_cells(&inspect, "k"), vec![0]);
    // Different data does insert, same data again does not.
    assert_eq!(store.insert_if_not_exists("k", Ok(b"w".to_vec())).unwrap(), true);
    assert_eq!(store.insert_if_not_exists("k", Ok(b"w".to_vec())).unwrap(), false);
    let entry = store.get("k", &RetrievalMethod::GetOk).unwrap();
    assert_eq!(entry.data.unwrap(), b"w".to_vec());
}

#[test]
fn remove_all_forgets_the_key() {
    let (mut store, inspect) = fresh_store();
    store.insert("k", Ok(b"a".to_vec())).unwrap();
    store.insert("k", Ok(b"b".to_vec())).unwrap();
    assert!(store.contains_key("k"));
    assert_eq!(store.remove_all("k").unwrap(), 2);
    assert!(!store.contains_key("k"));
    assert_eq!(revision_cells(&inspect, "k"), Vec::<u64>::new());
    let entry = store.get("k", &RetrievalMethod::Get).unwrap();
    assert!(matches!(entry.data, Err(EntryError::KeyDoesNotExist(_))));
    assert!(matches!(
        store.get("k", &RetrievalMethod::GetOk),
        Err(StoreError::NoOkValueFound(_))
    ));
    assert_eq!(store.remove_all("k").unwrap(), 0);
}

#[test]
fn revision_counter_overflow_wipes_history() {
    let (mut store, inspect) = fresh_store();
    // Artificially set the counter to its maximum, with an entry there.
    let stale = Entry::new(Ok(b"old".to_vec()), 0).to_bytes();
    inspect
        .insert(
            format!("task_store_key_k_rev_{}", u64::MAX).as_bytes(),
            stale,
        )
        .unwrap();
    inspect
        .insert(b"task_store_rev_index_k", u64::MAX.to_be_bytes().to_vec())
        .unwrap();
    store.insert("k", Ok(b"new".to_vec())).unwrap();
    assert_eq!(revision_cells(&inspect, "k"), vec![0]);
    let idx = inspect.get(b"task_store_rev_index_k").unwrap().unwrap();
    assert_eq!(u64::from_be_bytes(idx.as_ref().try_into().unwrap()), 0);
    let entry = store.get("k", &RetrievalMethod::Get).unwrap();
    assert_eq!(entry.data.unwrap(), b"new".to_vec());
}

#[test]
fn watcher_receives_one_event_per_revision_in_order() {
    let (mut store, _inspect) = fresh_store();
    let mut prefix = "p_".to_string();
    let mut sub = store.watch_prefix(&mut prefix);
    assert_eq!(prefix, "task_store_key_p_");
    store.insert("p_a", Ok(b"1".to_vec())).unwrap();
    store.insert("p_b", Ok(b"2".to_vec())).unwrap();
    store.insert("p_b", Ok(b"3".to_vec())).unwrap();
    let mut keys = Vec::new();
    for _ in 0..3 {
        match sub.next_timeout(Duration::from_millis(2000)) {
            Ok(sled::Event::Insert { key, .. }) => {
                keys.push(String::from_utf8(key.to_vec()).unwrap())
            }
            other => panic!("expected an insert event, got {:?}", other),
        }
    }
    assert_eq!(
        keys,
        vec![
            "task_store_key_p_a_rev_0".to_string(),
            "task_store_key_p_b_rev_0".to_string(),
            "task_store_key_p_b_rev_1".to_string(),
        ]
    );
    // Pruning after the second write of "p_b" removes its oldest revision,
    // and the subscriber sees that too.
    match sub.next_timeout(Duration::from_millis(2000)) {
        Ok(sled::Event::Remove { key }) => {
            assert_eq!(String::from_utf8(key.to_vec()).unwrap(), "task_store_key_p_b_rev_0")
        }
        other => panic!("expected the pruning removal, got {:?}", other),
    }
    assert!(sub.next_timeout(Duration::from_millis(100)).is_err());
}

#[test]
fn key_iter_lists_written_keys_by_prefix() {
    let (mut store, _inspect) = fresh_store();
    store.insert("p_a", Ok(b"1".to_vec())).unwrap();
    store.insert("p_b", Ok(b"2".to_vec())).unwrap();
    store.insert("q_c", Ok(b"3".to_vec())).unwrap();
    let mut all = store.key_iter(None).unwrap();
    all.sort();
    assert_eq!(all, vec!["p_a".to_string(), "p_b".to_string(), "q_c".to_string()]);
    let mut p_only = store.key_iter(Some("p_")).unwrap();
    p_only.sort();
    assert_eq!(p_only, vec!["p_a".to_string(), "p_b".to_string()]);
}

#[test]
fn value_iter_and_error_iter_surface_entries() {
    let (mut store, _inspect) = fresh_store();
    store.insert("good", Ok(b"fine".to_vec())).unwrap();
    store.insert("bad", Err(EntryError::Error("broken".to_string()))).unwrap();
    let values = store.value_iter(None, &RetrievalMethod::Get).unwrap();
    assert_eq!(values.len(), 2);
    let errors = store.error_iter(None).unwrap();
    assert_eq!(errors.len(), 1);
    assert_eq!(errors[0].0, "bad");
    assert!(matches!(errors[0].1, EntryError::Error(ref t) if t == "broken"));
}

#[test]
fn continuation_index_round_trip() {
    let (mut store, _inspect) = fresh_store();
    assert_eq!(get_next_index(&store, "checkpoint"), None);
    set_next_index(&mut store, "checkpoint", Some(41)).unwrap();
    assert_eq!(get_next_index(&store, "checkpoint"), Some(41));
    set_next_index(&mut store, "checkpoint", None).unwrap();
    assert_eq!(get_next_index(&store, "checkpoint"), None);
}

#[test]
fn continuation_key_round_trip() {
    let (mut store, _inspect) = fresh_store();
    assert_eq!(get_next_key(&store, "cp"), None);
    set_next_key(&mut store, "cp", &Some(b"page2".to_vec())).unwrap();
    assert_eq!(get_next_key(&store, "cp"), Some(b"page2".to_vec()));
}

#[test]
fn pagination_outcome_clears_or_saves() {
    let (mut store, _inspect) = fresh_store();
    // A finished run clears the checkpoint.
    set_next_key(&mut store, "cp", &Some(b"p".to_vec())).unwrap();
    let done = apply_pagination_outcome(&mut store, "cp", &None, true).unwrap();
    assert_eq!(done, CheckpointOutcome::Cleared);
    assert!(!store.contains_key("cp"));
    // An empty continuation key also means finished.
    let done = apply_pagination_outcome(&mut store, "cp", &Some(Vec::new()), true).unwrap();
    assert_eq!(done, CheckpointOutcome::Cleared);
    // A real continuation key is saved.
    let more = apply_pagination_outcome(&mut store, "cp", &Some(b"next".to_vec()), true).unwrap();
    assert_eq!(more, CheckpointOutcome::Saved);
    assert_eq!(get_next_key(&store, "cp"), Some(b"next".to_vec()));
    // A failed fetch keeps its resume point.
    let kept = apply_pagination_outcome(&mut store, "cp", &Some(b"next".to_vec()), false).unwrap();
    assert_eq!(kept, CheckpointOutcome::Saved);
}

#[test]
fn separate_keys_do_not_interfere() {
    let (mut store, _inspect) = fresh_store();
    store.insert("a", Ok(b"1".to_vec())).unwrap();
    store.insert("a_rev_1", Ok(b"2".to_vec())).unwrap();
    store.insert("a", Ok(b"3".to_vec())).unwrap();
    assert_eq!(
        store.get("a_rev_1", &RetrievalMethod::Get).unwrap().data.unwrap(),
        b"2".to_vec()
    );
    assert_eq!(store.get("a", &RetrievalMethod::Get).unwrap().data.unwrap(), b"3".to_vec());
    store.remove_all("a").unwrap();
    assert!(store.contains_key("a_rev_1"));
}
