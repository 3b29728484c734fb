//! The agents and what they share: the store every agent writes through,
//! the continuation checkpoints paginated fetches keep there, and the key
//! prefixes that keep the agents' key spaces apart.

use vstd::prelude::*;
use vstd::string::StringExecFns;
use crate::codec::{spec_u64_to_be_bytes, spec_u64_from_be_bytes, u64_to_be_bytes, u64_from_be_bytes, lemma_u64_be_bytes_roundtrip};
use crate::entry::RetrievalMethod;
use crate::fallback_entry_store::{FallbackEntryStore, get_post, key_wf, key_absent, insert_post, insert_post_with, spec_next_index, spec_current_index, same_key_cells, has_index, spec_index_of, rev_present, spec_entry_at};
use crate::sled_store::StoreError;

pub mod chain_registry;
pub mod dummy;
pub mod fraud_detection;
pub mod governance;
pub mod staking;

verus! {

/// The global prefix under which the agents' shared store keeps every cell.
pub const GLOBAL_PREFIX_TASK_STORE: &'static str = "task_store_";

/// The encoding of an optional continuation index: one presence byte, then
/// the index big-endian where present.
pub open spec fn spec_encode_opt_u64(o: Option<u64>) -> Seq<u8> {
    match o {
        None => seq![0u8],
        Some(v) => seq![1u8] + spec_u64_to_be_bytes(v),
    }
}

/// The optional index read back from its encoding, or `None` of the whole
/// parse where the bytes are not a well-formed encoding.
pub open spec fn spec_decode_opt_u64(b: Seq<u8>) -> Option<Option<u64>> {
    if b.len() == 1 && b[0] == 0 {
        Some(None)
    } else if b.len() == 9 && b[0] == 1 {
        Some(Some(spec_u64_from_be_bytes(b.subrange(1, 9))))
    } else {
        None
    }
}

/// Decoding inverts encoding for optional continuation indices.
pub proof fn lemma_opt_u64_roundtrip(o: Option<u64>)
    ensures
        spec_decode_opt_u64(spec_encode_opt_u64(o)) == Some(o),
{
    match o {
        None => {},
        Some(v) => {
            lemma_u64_be_bytes_roundtrip(v);
            assert(spec_encode_opt_u64(o).subrange(1, 9) =~= spec_u64_to_be_bytes(v));
        },
    }
}

/// Serializes an optional continuation index.
pub fn encode_opt_u64(o: Option<u64>) -> (r: Vec<u8>)
    ensures
        r@ == spec_encode_opt_u64(o),
{
    let mut r: Vec<u8> = Vec::new();
    match o {
        None => {
            r.push(0u8);
        },
        Some(v) => {
            r.push(1u8);
            let mut tail = u64_to_be_bytes(v);
            r.append(&mut tail);
        },
    }
    proof {
        assert(r@ =~= spec_encode_opt_u64(o));
    }
    r
}

/// Deserializes an optional continuation index.
pub fn decode_opt_u64(b: &Vec<u8>) -> (r: Option<Option<u64>>)
    ensures
        r == spec_decode_opt_u64(b@),
{
    if b.len() == 1 && b[0] == 0 {
        Some(None)
    } else if b.len() == 9 && b[0] == 1 {
        let mut tail: Vec<u8> = Vec::new();
        let mut i: usize = 1;
        while i < 9
            invariant
                1 <= i <= 9,
                b@.len() == 9,
                tail@ =~= b@.subrange(1, i as int),
            decreases 9 - i,
        {
            tail.push(b[i]);
            i += 1;
        }
        proof {
            assert(tail@ =~= b@.subrange(1, 9));
        }
        Some(Some(u64_from_be_bytes(&tail)))
    } else {
        None
    }
}

/// The encoding of an optional pagination key: one presence byte, then the
/// key bytes where present.
pub open spec fn spec_encode_opt_bytes(o: Option<Seq<u8>>) -> Seq<u8> {
    match o {
        None => seq![0u8],
        Some(v) => seq![1u8] + v,
    }
}

/// The optional key read back from its encoding, or `None` of the whole
/// parse where the bytes are not a well-formed encoding.
pub open spec fn spec_decode_opt_bytes(b: Seq<u8>) -> Option<Option<Seq<u8>>> {
    if b.len() == 1 && b[0] == 0 {
        Some(None)
    } else if b.len() >= 1 && b[0] == 1 {
        Some(Some(b.subrange(1, b.len() as int)))
    } else {
        None
    }
}

/// Decoding inverts encoding for optional pagination keys.
pub proof fn lemma_opt_bytes_roundtrip(o: Option<Seq<u8>>)
    ensures
        spec_decode_opt_bytes(spec_encode_opt_bytes(o)) == Some(o),
{
    match o {
        None => {},
        Some(v) => {
            assert(spec_encode_opt_bytes(o).subrange(1, spec_encode_opt_bytes(o).len() as int)
                =~= v);
        },
    }
}

/// Serializes an optional pagination key.
pub fn encode_opt_bytes(o: &Option<Vec<u8>>) -> (r: Vec<u8>)
    ensures
        r@ == spec_encode_opt_bytes(match o {
            Some(v) => Some(v@),
            None => None,
        }),
{
    let mut r: Vec<u8> = Vec::new();
    match o {
        None => {
            r.push(0u8);
        },
        Some(v) => {
            r.push(1u8);
            let mut i: usize = 0;
            while i < v.len()
                invariant
                    0 <= i <= v@.len(),
                    r@ =~= seq![1u8] + v@.subrange(0, i as int),
                decreases v@.len() - i,
            {
                r.push(v[i]);
                i += 1;
            }
        },
    }
    proof {
        match o {
            Some(v) => {
                assert(r@ =~= seq![1u8] + v@);
            },
            None => {},
        }
    }
    r
}

/// Deserializes an optional pagination key.
pub fn decode_opt_bytes(b: &Vec<u8>) -> (r: Option<Option<Vec<u8>>>)
    ensures
        match r {
            Some(Some(v)) => spec_decode_opt_bytes(b@) == Some(Some(v@)),
            Some(None) => spec_decode_opt_bytes(b@) == Some(None::<Seq<u8>>),
            None => spec_decode_opt_bytes(b@) is None,
        },
{
    if b.len() == 1 && b[0] == 0 {
        Some(None)
    } else if b.len() >= 1 && b[0] == 1 {
        let mut tail: Vec<u8> = Vec::new();
        let mut i: usize = 1;
        while i < b.len()
            invariant
                1 <= i <= b@.len(),
                b@.len() >= 1,
                tail@ =~= b@.subrange(1, i as int),
            decreases b@.len() - i,
        {
            tail.push(b[i]);
            i += 1;
        }
        proof {
            assert(tail@ =~= b@.subrange(1, b@.len() as int));
        }
        Some(Some(tail))
    } else {
        None
    }
}

/// The continuation index stored under a checkpoint key, read from the
/// current revision: the decoded value when the revision holds a decodable
/// success, nothing otherwise.
pub open spec fn spec_stored_next_index(kv: Map<Seq<char>, Seq<u8>>, k: Seq<char>) -> Option<u64> {
    match spec_current_entry_payload(kv, k) {
        Some(payload) => match spec_decode_opt_u64(payload) {
            Some(o) => o,
            None => None,
        },
        None => None,
    }
}

/// The payload of the entry at the current revision, where that revision is
/// present, decodable and successful.
pub open spec fn spec_current_entry_payload(kv: Map<Seq<char>, Seq<u8>>, k: Seq<char>) -> Option<
    Seq<u8>,
> {
    let idx = spec_current_index(kv, k);
    if crate::fallback_entry_store::rev_present(kv, k, idx) {
        match crate::fallback_entry_store::spec_entry_at(kv, k, idx) {
            Some(e) => match e.data {
                Ok(payload) => Some(payload),
                Err(_) => None,
            },
            None => None,
        }
    } else {
        None
    }
}

/// Reads the pagination checkpoint stored under `continue_at_key`: the saved
/// key when the current revision holds one, `None` on any failure.
pub fn get_next_key(task_store: &FallbackEntryStore, continue_at_key: &str) -> (r: Option<Vec<u8>>)
    ensures
        match r {
            Some(v) => spec_current_entry_payload(task_store@, continue_at_key@) matches Some(p)
                && spec_decode_opt_bytes(p) == Some(Some(v@)),
            None => true,
        },
{
    match task_store.get(continue_at_key, &RetrievalMethod::Get) {
        Ok(item) => match item.data {
            Ok(payload) => match decode_opt_bytes(&payload) {
                Some(key) => key,
                None => None,
            },
            Err(_) => None,
        },
        Err(_) => None,
    }
}

/// Saves a pagination checkpoint under `continue_at_key`, writing only when
/// the stored one differs.
pub fn set_next_key(
    task_store: &mut FallbackEntryStore,
    continue_at_key: &str,
    next_key: &Option<Vec<u8>>,
) -> (r: Result<(), StoreError>)
    ensures
        final(task_store).spec_prefix() == old(task_store).spec_prefix(),
        forall|k2: Seq<char>|
            k2 != continue_at_key@ ==> #[trigger] same_key_cells(
                old(task_store)@,
                final(task_store)@,
                k2,
            ),
        r matches Ok(_) && (key_wf(old(task_store)@, continue_at_key@) || key_absent(
            old(task_store)@,
            continue_at_key@,
        )) ==> (final(task_store)@ == old(task_store)@ || insert_post(
            old(task_store)@,
            final(task_store)@,
            continue_at_key@,
            Ok(spec_encode_opt_bytes(match next_key {
                Some(v) => Some(v@),
                None => None,
            })),
        )),
{
    let payload = encode_opt_bytes(next_key);
    match task_store.insert_if_not_exists(continue_at_key, Ok(payload)) {
        Ok(_) => Ok(()),
        Err(e) => Err(e),
    }
}

/// Reads the continuation index stored under `continue_at_key`: the saved
/// index when the current revision holds one, `None` on any failure.
pub fn get_next_index(task_store: &FallbackEntryStore, continue_at_key: &str) -> (r: Option<u64>)
    ensures
        r matches Some(v) ==> spec_stored_next_index(task_store@, continue_at_key@) == Some(v),
{
    match task_store.get(continue_at_key, &RetrievalMethod::Get) {
        Ok(item) => {
            proof {
                assert(get_post(task_store@, continue_at_key@, item@));
            }
            match item.data {
                Ok(payload) => match decode_opt_u64(&payload) {
                    Some(index) => index,
                    None => None,
                },
                Err(_) => None,
            }
        },
        Err(_) => None,
    }
}

/// Saves a continuation index under `continue_at_key`, always writing a new
/// revision.
pub fn set_next_index(
    task_store: &mut FallbackEntryStore,
    continue_at_key: &str,
    next_index: Option<u64>,
) -> (r: Result<(), StoreError>)
    ensures
        final(task_store).spec_prefix() == old(task_store).spec_prefix(),
        forall|k2: Seq<char>|
            k2 != continue_at_key@ ==> #[trigger] same_key_cells(
                old(task_store)@,
                final(task_store)@,
                k2,
            ),
        r matches Ok(_) && (key_wf(old(task_store)@, continue_at_key@) || key_absent(
            old(task_store)@,
            continue_at_key@,
        )) ==> insert_post(
            old(task_store)@,
            final(task_store)@,
            continue_at_key@,
            Ok(spec_encode_opt_u64(next_index)),
        ),
{
    let payload = encode_opt_u64(next_index);
    match task_store.insert(continue_at_key, Ok(payload)) {
        Ok(_) => Ok(()),
        Err(e) => Err(e),
    }
}


/// What a paginated fetch did with its checkpoint.
#[derive(Debug, Clone, Copy, PartialEq, Eq, Structural)]
pub enum CheckpointOutcome {
    /// The page run is complete: the checkpoint was removed.
    Cleared,
    /// More pages remain, or the fetch failed: the checkpoint was saved.
    Saved,
}

/// Applies a paginated fetch's outcome to its checkpoint, as every paging
/// fetch task does: a successful fetch that reports no further page — no
/// continuation key, or an empty one — clears the checkpoint; a successful
/// fetch with a real continuation key saves it; a failed fetch saves the key
/// it started from, so the next attempt resumes instead of restarting.
pub fn apply_pagination_outcome(
    task_store: &mut FallbackEntryStore,
    continue_at_key: &str,
    next_key: &Option<Vec<u8>>,
    fetch_succeeded: bool,
) -> (r: Result<CheckpointOutcome, StoreError>)
    requires
        has_index(old(task_store)@, continue_at_key@) ==> spec_index_of(
            old(task_store)@,
            continue_at_key@,
        ) < u64::MAX,
    ensures
        final(task_store).spec_prefix() == old(task_store).spec_prefix(),
        forall|k2: Seq<char>|
            k2 != continue_at_key@ ==> #[trigger] same_key_cells(
                old(task_store)@,
                final(task_store)@,
                k2,
            ),
        r matches Ok(o) ==> (o == CheckpointOutcome::Cleared <==> (fetch_succeeded && match next_key {
            Some(k) => k@.len() == 0,
            None => true,
        })),
{
    if fetch_succeeded {
        match next_key {
            Some(k) => {
                if k.len() == 0 {
                    match task_store.remove_all(continue_at_key) {
                        Ok(_) => Ok(CheckpointOutcome::Cleared),
                        Err(e) => Err(e),
                    }
                } else {
                    match set_next_key(task_store, continue_at_key, next_key) {
                        Ok(_) => Ok(CheckpointOutcome::Saved),
                        Err(e) => Err(e),
                    }
                }
            },
            None => {
                match task_store.remove_all(continue_at_key) {
                    Ok(_) => Ok(CheckpointOutcome::Cleared),
                    Err(e) => Err(e),
                }
            },
        }
    } else {
        match set_next_key(task_store, continue_at_key, next_key) {
            Ok(_) => Ok(CheckpointOutcome::Saved),
            Err(e) => Err(e),
        }
    }
}


/// Saving a continuation index and reading it back returns it: after a
/// successful save on a well-formed key, the stored index is exactly the one
/// handed in.
pub proof fn lemma_stored_next_index_after_set(
    kv0: Map<Seq<char>, Seq<u8>>,
    kv1: Map<Seq<char>, Seq<u8>>,
    k: Seq<char>,
    idx: Option<u64>,
)
    requires
        key_wf(kv0, k) || key_absent(kv0, k),
        insert_post(kv0, kv1, k, Ok(spec_encode_opt_u64(idx))),
    ensures
        spec_stored_next_index(kv1, k) == idx,
{
    let s = choose|s: u64| #[trigger] insert_post_with(kv0, kv1, k, Ok(spec_encode_opt_u64(idx)), s);
    let next = spec_next_index(kv0, k);
    lemma_u64_be_bytes_roundtrip(next);
    assert(spec_current_index(kv1, k) == next);
    assert(rev_present(kv1, k, next));
    match spec_entry_at(kv1, k, next) {
        Some(e) => {
            assert(e.data == Ok::<Seq<u8>, crate::entry::EntryErrorSpec>(spec_encode_opt_u64(idx)));
            lemma_opt_u64_roundtrip(idx);
        },
        None => {
            assert(false);
        },
    }
}

} // verus!
