//! The fraud-detection agent: watches newly stored proposals, asks a
//! sidecar classifier for a fraud probability, and stores the verdict.

use vstd::prelude::*;
use vstd::string::StringExecFns;
use crate::interface::{Agent, contains_view, views_of, spec_delay_lookup, delays_view};
use crate::fallback_entry_store::{FallbackEntryStore, getok_post};
use crate::entry::{RetrievalMethod, EntrySpec, EntryErrorSpec};
use crate::codec::{spec_dec, u64_to_dec};

verus! {

/// The agent's configuration and backoff state.
pub struct FraudDetectionAgent {
    pub unix_socket: Option<String>,
    pub csv_file: Option<String>,
    pub update_interval_in_secs: i64,
    pub retry_delay_in_secs: Vec<(FraudDetectionTasks, i64)>,
    initial_retry_delay: i64,
}

/// The agent's single task instance.
#[derive(Debug, Clone, Copy, PartialEq, Eq, Hash, Structural)]
pub enum FraudDetectionTasks {
    FetchFraudDetection,
}

impl View for FraudDetectionTasks {
    type V = FraudDetectionTasks;

    open spec fn view(&self) -> FraudDetectionTasks {
        *self
    }
}

impl Default for FraudDetectionAgent {
    /// A permanently running consumer: it re-runs immediately and never
    /// backs off.
    fn default() -> (r: FraudDetectionAgent)
        ensures
            r.spec_update_interval() == 0,
            r.spec_initial_retry_delay() == 0,
            forall|t: FraudDetectionTasks| #[trigger] r.spec_retry_delay(t) == 0,
    {
        let r = FraudDetectionAgent {
            unix_socket: Some("./tmp/rust_bert_fraud_detection_socket".to_owned()),
            csv_file: Some("./tmp/governance_proposal_spam_likelihood.csv".to_owned()),
            update_interval_in_secs: 0,
            retry_delay_in_secs: Vec::new(),
            initial_retry_delay: 0,
        };
        proof {
            assert(delays_view(r.retry_delay_in_secs@) =~= Seq::<(FraudDetectionTasks, i64)>::empty());
        }
        r
    }
}

/// Whether a task equal to `t` stands in `pending`.
fn task_pending_contains(pending: &Vec<FraudDetectionTasks>, t: &FraudDetectionTasks) -> (r: bool)
    ensures
        r == contains_view(views_of(*pending), t@),
{
    let mut i: usize = 0;
    while i < pending.len()
        invariant
            0 <= i <= pending@.len(),
            forall|j: int| 0 <= j < i ==> views_of(*pending)[j] != t@,
        decreases pending@.len() - i,
    {
        if pending[i] == *t {
            proof {
                assert(views_of(*pending)[i as int] == t@);
            }
            return true;
        }
        i += 1;
    }
    false
}

impl Agent for FraudDetectionAgent {
    type TaskType = FraudDetectionTasks;

    closed spec fn spec_retry_delay(&self, task: <FraudDetectionTasks as View>::V) -> i64 {
        spec_delay_lookup(delays_view(self.retry_delay_in_secs@), task, self.initial_retry_delay)
    }

    closed spec fn spec_initial_retry_delay(&self) -> i64 {
        self.initial_retry_delay
    }

    closed spec fn spec_update_interval(&self) -> i64 {
        self.update_interval_in_secs
    }

    fn get_tasks(&self, tasks_pending: &Vec<FraudDetectionTasks>) -> (r: Vec<FraudDetectionTasks>) {
        let mut fns: Vec<FraudDetectionTasks> = Vec::new();
        if !task_pending_contains(tasks_pending, &FraudDetectionTasks::FetchFraudDetection) {
            fns.push(FraudDetectionTasks::FetchFraudDetection);
        }
        fns
    }
    fn get_update_interval_in_secs(&self, _task_type: &FraudDetectionTasks) -> (r: i64) {
        self.update_interval_in_secs
    }

    fn get_retry_delay_in_secs(&self, task_type: &FraudDetectionTasks) -> (r: i64) {
        let list = &self.retry_delay_in_secs;
        let mut i: usize = list.len();
        proof {
            assert(delays_view(list@).take(i as int) =~= delays_view(list@));
        }
        while i > 0
            invariant
                i <= list@.len(),
                list@ == self.retry_delay_in_secs@,
                delays_view(list@).len() == list@.len(),
                spec_delay_lookup(delays_view(list@), task_type@, self.initial_retry_delay)
                    == spec_delay_lookup(
                    delays_view(list@).take(i as int),
                    task_type@,
                    self.initial_retry_delay,
                ),
            decreases i,
        {
            i -= 1;
            proof {
                assert(delays_view(list@).take(i as int + 1).last() == delays_view(list@)[i as int]);
                assert(delays_view(list@).take(i as int + 1).drop_last() =~= delays_view(
                    list@,
                ).take(i as int));
                assert(delays_view(list@)[i as int] == (list@[i as int].0@, list@[i as int].1));
            }
            if list[i].0 == *task_type {
                proof {
                    assert(spec_delay_lookup(
                        delays_view(list@).take(i as int + 1),
                        task_type@,
                        self.initial_retry_delay,
                    ) == delays_view(list@)[i as int].1);
                }
                return list[i].1;
            }
        }
        proof {
            assert(delays_view(list@).take(0) =~= Seq::<(<FraudDetectionTasks as View>::V, i64)>::empty());
        }
        self.initial_retry_delay
    }

    fn set_retry_delay_in_secs(&mut self, task_type: &FraudDetectionTasks, retry_delay: i64) {
        self.retry_delay_in_secs.push((*task_type, retry_delay));
        proof {
            let l = delays_view(self.retry_delay_in_secs@);
            assert(l =~= delays_view(old(self).retry_delay_in_secs@).push(
                (task_type@, retry_delay),
            ));
            assert(l.last() == (task_type@, retry_delay));
            assert(l.drop_last() =~= delays_view(old(self).retry_delay_in_secs@));
        }
    }

    fn reset_retry_delay(&mut self, task_type: &FraudDetectionTasks) {
        let baseline = self.initial_retry_delay;
        self.retry_delay_in_secs.push((*task_type, baseline));
        proof {
            let l = delays_view(self.retry_delay_in_secs@);
            assert(l =~= delays_view(old(self).retry_delay_in_secs@).push((task_type@, baseline)));
            assert(l.last() == (task_type@, baseline));
            assert(l.drop_last() =~= delays_view(old(self).retry_delay_in_secs@));
        }
    }
}

/// The combined text a proposal is classified on: its title, a blank line,
/// and its description.
pub fn get_relevant_text(title: &str, description: &str) -> (r: String)
    ensures
        r@ == title@ + "

"@ + description@,
{
    let mut s = title.to_owned();
    s.append("

");
    s.append(description);
    s
}

/// Relies on `std::collections::hash_map::DefaultHasher`: hashes the text to
/// a 64-bit value. The hash function is unspecified, so nothing is promised
/// of the value.
#[verifier::external_body]
pub fn get_relevant_text_as_hash(text: &str) -> u64 {
    let mut s = std::collections::hash_map::DefaultHasher::new();
    std::hash::Hash::hash(text, &mut s);
    std::hash::Hasher::finish(&s)
}

/// The key a proposal's fraud classification is stored under.
pub fn get_fraud_classification_entry_key(
    blockchain_name: &str,
    proposal_id: u64,
    text_hash: u64,
) -> (r: String)
    ensures
        r@ == "governance_"@ + "fraud_detection_"@ + blockchain_name@ + "_"@ + spec_dec(
            proposal_id,
        ) + "_"@ + spec_dec(text_hash),
{
    let mut s = "governance_".to_owned();
    s.append("fraud_detection_");
    s.append(blockchain_name);
    s.append("_");
    let id = u64_to_dec(proposal_id);
    s.append(id.as_str());
    s.append("_");
    let h = u64_to_dec(text_hash);
    s.append(h.as_str());
    s
}

/// The newest stored fraud classification for a proposal, as the serialized
/// bytes the detection task stored; `None` when none is retrievable.
pub fn try_get_fraud_classification(
    task_store: &FallbackEntryStore,
    blockchain_name: &str,
    proposal_id: u64,
    text_hash: u64,
) -> (r: Option<Vec<u8>>)
    ensures
        r matches Some(b) ==> exists|e: EntrySpec, k: Seq<char>|
            #[trigger] getok_post(task_store@, k, e) && e.data == Ok::<Seq<u8>, EntryErrorSpec>(b@),
{
    let key = get_fraud_classification_entry_key(blockchain_name, proposal_id, text_hash);
    match task_store.get(key.as_str(), &RetrievalMethod::GetOk) {
        Ok(item) => {
            let ghost ge = item@;
            let ghost gk = key@;
            match item.data {
                Ok(data) => {
                    proof {
                        assert(getok_post(task_store@, gk, ge));
                        assert(ge.data == Ok::<Seq<u8>, EntryErrorSpec>(data@));
                    }
                    Some(data)
                },
                Err(_) => None,
            }
        },
        Err(_) => None,
    }
}

} // verus!
