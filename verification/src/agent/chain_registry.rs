//! The chain-registry agent: fetches the set of supported blockchains and
//! stores it for every other agent to read.

use vstd::prelude::*;
use crate::interface::{Agent, contains_view, views_of, spec_delay_lookup, delays_view};
use crate::fallback_entry_store::{FallbackEntryStore, getok_post};
use crate::entry::{RetrievalMethod, EntrySpec, EntryErrorSpec};

verus! {

/// The agent's configuration and backoff state.
pub struct ChainRegistryAgent {
    pub git_path: String,
    pub json_path: String,
    pub git_pull: bool,
    pub sync_interval_in_secs: Option<u64>,
    pub update_interval_in_secs: i64,
    pub retry_delay_in_secs: Vec<(ChainRegistryTasks, i64)>,
    initial_retry_delay: i64,
}

/// The agent's single task instance.
#[derive(Debug, Clone, Copy, PartialEq, Eq, Hash, Structural)]
pub enum ChainRegistryTasks {
    FetchChainRegistry,
}

impl View for ChainRegistryTasks {
    type V = ChainRegistryTasks;

    open spec fn view(&self) -> ChainRegistryTasks {
        *self
    }
}

impl Default for ChainRegistryAgent {
    /// Refreshes every half hour, retrying after a minute; reads the
    /// registry from a local checkout without pulling.
    fn default() -> (r: ChainRegistryAgent)
        ensures
            r.spec_update_interval() == 1800,
            r.spec_initial_retry_delay() == 60,
            forall|t: ChainRegistryTasks| #[trigger] r.spec_retry_delay(t) == 60,
    {
        let r = ChainRegistryAgent {
            git_path: "./bin/assets/chain-registry".to_owned(),
            json_path: "./bin/assets/supported_blockchains.json".to_owned(),
            git_pull: false,
            sync_interval_in_secs: None,
            update_interval_in_secs: 1800,
            retry_delay_in_secs: Vec::new(),
            initial_retry_delay: 60,
        };
        proof {
            assert(delays_view(r.retry_delay_in_secs@) =~= Seq::<(ChainRegistryTasks, i64)>::empty());
        }
        r
    }
}

/// Whether a task equal to `t` stands in `pending`.
fn task_pending_contains(pending: &Vec<ChainRegistryTasks>, t: &ChainRegistryTasks) -> (r: bool)
    ensures
        r == contains_view(views_of(*pending), t@),
{
    let mut i: usize = 0;
    while i < pending.len()
        invariant
            0 <= i <= pending@.len(),
            forall|j: int| 0 <= j < i ==> views_of(*pending)[j] != t@,
        decreases pending@.len() - i,
    {
        if pending[i] == *t {
            proof {
                assert(views_of(*pending)[i as int] == t@);
            }
            return true;
        }
        i += 1;
    }
    false
}

impl Agent for ChainRegistryAgent {
    type TaskType = ChainRegistryTasks;

    closed spec fn spec_retry_delay(&self, task: <ChainRegistryTasks as View>::V) -> i64 {
        spec_delay_lookup(delays_view(self.retry_delay_in_secs@), task, self.initial_retry_delay)
    }

    closed spec fn spec_initial_retry_delay(&self) -> i64 {
        self.initial_retry_delay
    }

    closed spec fn spec_update_interval(&self) -> i64 {
        self.update_interval_in_secs
    }

    fn get_tasks(&self, tasks_pending: &Vec<ChainRegistryTasks>) -> (r: Vec<ChainRegistryTasks>) {
        let mut fns: Vec<ChainRegistryTasks> = Vec::new();
        if !task_pending_contains(tasks_pending, &ChainRegistryTasks::FetchChainRegistry) {
            fns.push(ChainRegistryTasks::FetchChainRegistry);
        }
        fns
    }
    fn get_update_interval_in_secs(&self, _task_type: &ChainRegistryTasks) -> (r: i64) {
        self.update_interval_in_secs
    }

    fn get_retry_delay_in_secs(&self, task_type: &ChainRegistryTasks) -> (r: i64) {
        let list = &self.retry_delay_in_secs;
        let mut i: usize = list.len();
        proof {
            assert(delays_view(list@).take(i as int) =~= delays_view(list@));
        }
        while i > 0
            invariant
                i <= list@.len(),
                list@ == self.retry_delay_in_secs@,
                delays_view(list@).len() == list@.len(),
                spec_delay_lookup(delays_view(list@), task_type@, self.initial_retry_delay)
                    == spec_delay_lookup(
                    delays_view(list@).take(i as int),
                    task_type@,
                    self.initial_retry_delay,
                ),
            decreases i,
        {
            i -= 1;
            proof {
                assert(delays_view(list@).take(i as int + 1).last() == delays_view(list@)[i as int]);
                assert(delays_view(list@).take(i as int + 1).drop_last() =~= delays_view(
                    list@,
                ).take(i as int));
                assert(delays_view(list@)[i as int] == (list@[i as int].0@, list@[i as int].1));
            }
            if list[i].0 == *task_type {
                proof {
                    assert(spec_delay_lookup(
                        delays_view(list@).take(i as int + 1),
                        task_type@,
                        self.initial_retry_delay,
                    ) == delays_view(list@)[i as int].1);
                }
                return list[i].1;
            }
        }
        proof {
            assert(delays_view(list@).take(0) =~= Seq::<(<ChainRegistryTasks as View>::V, i64)>::empty());
        }
        self.initial_retry_delay
    }

    fn set_retry_delay_in_secs(&mut self, task_type: &ChainRegistryTasks, retry_delay: i64) {
        self.retry_delay_in_secs.push((*task_type, retry_delay));
        proof {
            let l = delays_view(self.retry_delay_in_secs@);
            assert(l =~= delays_view(old(self).retry_delay_in_secs@).push(
                (task_type@, retry_delay),
            ));
            assert(l.last() == (task_type@, retry_delay));
            assert(l.drop_last() =~= delays_view(old(self).retry_delay_in_secs@));
        }
    }

    fn reset_retry_delay(&mut self, task_type: &ChainRegistryTasks) {
        let baseline = self.initial_retry_delay;
        self.retry_delay_in_secs.push((*task_type, baseline));
        proof {
            let l = delays_view(self.retry_delay_in_secs@);
            assert(l =~= delays_view(old(self).retry_delay_in_secs@).push((task_type@, baseline)));
            assert(l.last() == (task_type@, baseline));
            assert(l.drop_last() =~= delays_view(old(self).retry_delay_in_secs@));
        }
    }
}

/// The logical key the chain registry is stored under.
pub open spec fn spec_chain_registry_key() -> Seq<char> {
    "chain_registry"@
}

/// The newest successfully fetched chain registry, as the serialized bytes
/// the fetch task stored; `None` when none is retrievable.
pub fn try_get_chain_registry(task_store: &FallbackEntryStore) -> (r: Option<Vec<u8>>)
    ensures
        r matches Some(b) ==> exists|e: EntrySpec|
            #[trigger] getok_post(task_store@, spec_chain_registry_key(), e) && e.data == Ok::<Seq<u8>, EntryErrorSpec>(b@),
{
    let key = "chain_registry";
    proof {
        reveal_strlit("chain_registry");
    }
    match task_store.get(key, &RetrievalMethod::GetOk) {
        Ok(item) => {
            let ghost ge = item@;
            match item.data {
                Ok(data) => {
                    proof {
                        assert(getok_post(task_store@, spec_chain_registry_key(), ge));
                        assert(ge.data == Ok::<Seq<u8>, EntryErrorSpec>(data@));
                    }
                    Some(data)
                },
                Err(_) => None,
            }
        },
        Err(_) => None,
    }
}

} // verus!
