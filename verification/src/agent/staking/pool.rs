//! The staking-pool agent: fetches each blockchain's staking pool and
//! stores the newest successful copy.

use vstd::prelude::*;
use vstd::string::StringExecFns;
use crate::interface::{Agent, contains_view, views_of, spec_delay_lookup, delays_view};
use crate::fallback_entry_store::{FallbackEntryStore, getok_post};
use crate::entry::{RetrievalMethod, EntrySpec, EntryErrorSpec};

verus! {

/// The agent's configuration and backoff state.
pub struct PoolAgent {
    pub known_blockchains: Vec<String>,
    pub update_interval_in_secs: i64,
    pub retry_delay_in_secs: Vec<(PoolTasks, i64)>,
    initial_retry_delay: i64,
}

/// One fetch: the blockchain it runs against.
#[derive(Debug, Hash)]
pub struct PoolTasks {
    pub blockchain_name: String,
}

/// The mathematical value of a [`PoolTasks`].
pub struct PoolTasksSpec {
    pub blockchain_name: Seq<char>,
}

impl View for PoolTasks {
    type V = PoolTasksSpec;

    open spec fn view(&self) -> PoolTasksSpec {
        PoolTasksSpec { blockchain_name: self.blockchain_name@ }
    }
}

impl Clone for PoolTasks {
    fn clone(&self) -> (r: PoolTasks)
        ensures
            r@ == self@,
    {
        PoolTasks { blockchain_name: self.blockchain_name.clone() }
    }
}

impl PoolTasks {
    /// Whether this instance names the same task as `other`.
    pub fn matches_task(&self, other: &PoolTasks) -> (r: bool)
        ensures
            r == (self@ == other@),
    {
        let r = self.blockchain_name == other.blockchain_name;
        proof {
            assert(r ==> self@ == other@);
            assert(!r ==> self@ != other@);
        }
        r
    }
}

/// Whether a task equal to `t` stands in `pending`.
fn task_pending_contains(pending: &Vec<PoolTasks>, t: &PoolTasks) -> (r: bool)
    ensures
        r == contains_view(views_of(*pending), t@),
{
    let mut i: usize = 0;
    while i < pending.len()
        invariant
            0 <= i <= pending@.len(),
            forall|j: int| 0 <= j < i ==> views_of(*pending)[j] != t@,
        decreases pending@.len() - i,
    {
        if pending[i].matches_task(t) {
            proof {
                assert(views_of(*pending)[i as int] == t@);
            }
            return true;
        }
        i += 1;
    }
    false
}

impl Default for PoolAgent {
    /// Refreshes every half hour, retrying after a minute; the blockchains
    /// come from the chain registry.
    fn default() -> (r: PoolAgent)
        ensures
            r.spec_update_interval() == 1800,
            r.spec_initial_retry_delay() == 60,
            forall|t: PoolTasksSpec| #[trigger] r.spec_retry_delay(t) == 60,
    {
        let r = PoolAgent {
            known_blockchains: Vec::new(),
            update_interval_in_secs: 1800,
            retry_delay_in_secs: Vec::new(),
            initial_retry_delay: 60,
        };
        proof {
            assert(delays_view(r.retry_delay_in_secs@) =~= Seq::<(PoolTasksSpec, i64)>::empty());
        }
        r
    }
}

impl Agent for PoolAgent {
    type TaskType = PoolTasks;

    closed spec fn spec_retry_delay(&self, task: <PoolTasks as View>::V) -> i64 {
        spec_delay_lookup(delays_view(self.retry_delay_in_secs@), task, self.initial_retry_delay)
    }

    closed spec fn spec_initial_retry_delay(&self) -> i64 {
        self.initial_retry_delay
    }

    closed spec fn spec_update_interval(&self) -> i64 {
        self.update_interval_in_secs
    }

    fn get_tasks(&self, tasks_pending: &Vec<PoolTasks>) -> (r: Vec<PoolTasks>) {
        let mut fns: Vec<PoolTasks> = Vec::new();
        let mut b: usize = 0;
        while b < self.known_blockchains.len()
            invariant
                forall|j: int|
                    0 <= j < fns@.len() ==> !contains_view(
                        views_of(*tasks_pending),
                        (#[trigger] fns@[j])@,
                    ),
            decreases self.known_blockchains@.len() - b,
        {
            let task = PoolTasks { blockchain_name: self.known_blockchains[b].clone() };
            if !task_pending_contains(tasks_pending, &task) {
                fns.push(task);
            }
            b += 1;
        }
        fns
    }

    fn get_update_interval_in_secs(&self, _task_type: &PoolTasks) -> (r: i64) {
        self.update_interval_in_secs
    }

    fn get_retry_delay_in_secs(&self, task_type: &PoolTasks) -> (r: i64) {
        let list = &self.retry_delay_in_secs;
        let mut i: usize = list.len();
        proof {
            assert(delays_view(list@).take(i as int) =~= delays_view(list@));
        }
        while i > 0
            invariant
                i <= list@.len(),
                list@ == self.retry_delay_in_secs@,
                delays_view(list@).len() == list@.len(),
                spec_delay_lookup(delays_view(list@), task_type@, self.initial_retry_delay)
                    == spec_delay_lookup(
                    delays_view(list@).take(i as int),
                    task_type@,
                    self.initial_retry_delay,
                ),
            decreases i,
        {
            i -= 1;
            proof {
                assert(delays_view(list@).take(i as int + 1).last() == delays_view(list@)[i as int]);
                assert(delays_view(list@).take(i as int + 1).drop_last() =~= delays_view(
                    list@,
                ).take(i as int));
                assert(delays_view(list@)[i as int] == (list@[i as int].0@, list@[i as int].1));
            }
            if list[i].0.matches_task(task_type) {
                proof {
                    assert(spec_delay_lookup(
                        delays_view(list@).take(i as int + 1),
                        task_type@,
                        self.initial_retry_delay,
                    ) == delays_view(list@)[i as int].1);
                }
                return list[i].1;
            }
        }
        proof {
            assert(delays_view(list@).take(0) =~= Seq::<(<PoolTasks as View>::V, i64)>::empty());
        }
        self.initial_retry_delay
    }

    fn set_retry_delay_in_secs(&mut self, task_type: &PoolTasks, retry_delay: i64) {
        self.retry_delay_in_secs.push((task_type.clone(), retry_delay));
        proof {
            let l = delays_view(self.retry_delay_in_secs@);
            assert(l =~= delays_view(old(self).retry_delay_in_secs@).push(
                (task_type@, retry_delay),
            ));
            assert(l.last() == (task_type@, retry_delay));
            assert(l.drop_last() =~= delays_view(old(self).retry_delay_in_secs@));
        }
    }

    fn reset_retry_delay(&mut self, task_type: &PoolTasks) {
        let baseline = self.initial_retry_delay;
        self.retry_delay_in_secs.push((task_type.clone(), baseline));
        proof {
            let l = delays_view(self.retry_delay_in_secs@);
            assert(l =~= delays_view(old(self).retry_delay_in_secs@).push((task_type@, baseline)));
            assert(l.last() == (task_type@, baseline));
            assert(l.drop_last() =~= delays_view(old(self).retry_delay_in_secs@));
        }
    }
}

/// The key a blockchain's staking pool is stored under.
pub fn get_pool_entry_key(blockchain_name: &str) -> (r: String)
    ensures
        r@ == "governance_"@ + "pool_"@ + blockchain_name@,
{
    let mut s = "governance_".to_owned();
    s.append("pool_");
    s.append(blockchain_name);
    s
}

/// The newest stored staking pool for a blockchain, as serialized bytes;
/// `None` when none is retrievable.
pub fn try_get_pool(task_store: &FallbackEntryStore, blockchain_name: &str) -> (r: Option<Vec<u8>>)
    ensures
        r matches Some(b) ==> exists|e: EntrySpec, k: Seq<char>|
            #[trigger] getok_post(task_store@, k, e) && e.data == Ok::<Seq<u8>, EntryErrorSpec>(b@),
{
    let key = get_pool_entry_key(blockchain_name);
    match task_store.get(key.as_str(), &RetrievalMethod::GetOk) {
        Ok(item) => {
            let ghost ge = item@;
            let ghost gk = key@;
            match item.data {
                Ok(data) => {
                    proof {
                        assert(getok_post(task_store@, gk, ge));
                        assert(ge.data == Ok::<Seq<u8>, EntryErrorSpec>(data@));
                    }
                    Some(data)
                },
                Err(_) => None,
            }
        },
        Err(_) => None,
    }
}

} // verus!
