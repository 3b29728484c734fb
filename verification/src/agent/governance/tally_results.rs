//! The tally-results agent: fetches the live tallies of proposals in their
//! voting period and stores the newest successful copy of each.

use vstd::prelude::*;
use vstd::string::StringExecFns;
use crate::interface::{Agent, contains_view, views_of, spec_delay_lookup, delays_view};
use crate::fallback_entry_store::{FallbackEntryStore, getok_post};
use crate::entry::{RetrievalMethod, EntrySpec, EntryErrorSpec};
use crate::agent::governance::ProposalStatus;
use crate::codec::{spec_dec, u64_to_dec};

verus! {

/// The agent's configuration and backoff state.
pub struct TallyResultsAgent {
    pub continue_at_key_prefix: String,
    pub known_blockchains: Vec<String>,
    pub update_interval_in_secs: i64,
    pub retry_delay_in_secs: Vec<(TallyResultsTasks, i64)>,
    initial_retry_delay: i64,
}

/// One fetch: a blockchain and the proposal status it targets.
#[derive(Debug, Hash)]
pub struct TallyResultsTasks {
    pub blockchain_name: String,
    pub proposal_status: ProposalStatus,
}

/// The mathematical value of a [`TallyResultsTasks`].
pub struct TallyResultsTasksSpec {
    pub blockchain_name: Seq<char>,
    pub proposal_status: ProposalStatus,
}

impl View for TallyResultsTasks {
    type V = TallyResultsTasksSpec;

    open spec fn view(&self) -> TallyResultsTasksSpec {
        TallyResultsTasksSpec { blockchain_name: self.blockchain_name@, proposal_status: self.proposal_status }
    }
}

impl Clone for TallyResultsTasks {
    fn clone(&self) -> (r: TallyResultsTasks)
        ensures
            r@ == self@,
    {
        TallyResultsTasks {
            blockchain_name: self.blockchain_name.clone(),
            proposal_status: self.proposal_status,
        }
    }
}

impl TallyResultsTasks {
    /// Whether this instance names the same task as `other`.
    pub fn matches_task(&self, other: &TallyResultsTasks) -> (r: bool)
        ensures
            r == (self@ == other@),
    {
        let r = self.blockchain_name == other.blockchain_name && self.proposal_status
            == other.proposal_status;
        proof {
            assert(r ==> self@ == other@);
            assert(!r ==> self@ != other@);
        }
        r
    }
}

/// Whether a task equal to `t` stands in `pending`.
fn task_pending_contains(pending: &Vec<TallyResultsTasks>, t: &TallyResultsTasks) -> (r: bool)
    ensures
        r == contains_view(views_of(*pending), t@),
{
    let mut i: usize = 0;
    while i < pending.len()
        invariant
            0 <= i <= pending@.len(),
            forall|j: int| 0 <= j < i ==> views_of(*pending)[j] != t@,
        decreases pending@.len() - i,
    {
        if pending[i].matches_task(t) {
            proof {
                assert(views_of(*pending)[i as int] == t@);
            }
            return true;
        }
        i += 1;
    }
    false
}

impl Default for TallyResultsAgent {
    /// Refreshes every quarter hour, retrying after a minute, for proposals
    /// in their voting period only.
    fn default() -> (r: TallyResultsAgent)
        ensures
            r.spec_update_interval() == 900,
            r.spec_initial_retry_delay() == 60,
            forall|t: TallyResultsTasksSpec| #[trigger] r.spec_retry_delay(t) == 60,
    {
        let r = TallyResultsAgent {
            continue_at_key_prefix: "fetch_tally_results_for".to_owned(),
            known_blockchains: Vec::new(),
            update_interval_in_secs: 900,
            retry_delay_in_secs: Vec::new(),
            initial_retry_delay: 60,
        };
        proof {
            assert(delays_view(r.retry_delay_in_secs@) =~= Seq::<(TallyResultsTasksSpec, i64)>::empty());
        }
        r
    }
}

impl Agent for TallyResultsAgent {
    type TaskType = TallyResultsTasks;

    closed spec fn spec_retry_delay(&self, task: <TallyResultsTasks as View>::V) -> i64 {
        spec_delay_lookup(delays_view(self.retry_delay_in_secs@), task, self.initial_retry_delay)
    }

    closed spec fn spec_initial_retry_delay(&self) -> i64 {
        self.initial_retry_delay
    }

    closed spec fn spec_update_interval(&self) -> i64 {
        self.update_interval_in_secs
    }

    fn get_tasks(&self, tasks_pending: &Vec<TallyResultsTasks>) -> (r: Vec<TallyResultsTasks>) {
        let mut fns: Vec<TallyResultsTasks> = Vec::new();
        let statuses = voting_period_only();
        let mut b: usize = 0;
        while b < self.known_blockchains.len()
            invariant
                forall|j: int|
                    0 <= j < fns@.len() ==> !contains_view(
                        views_of(*tasks_pending),
                        (#[trigger] fns@[j])@,
                    ),
            decreases self.known_blockchains@.len() - b,
        {
            let mut p: usize = 0;
            while p < statuses.len()
                invariant
                    b < self.known_blockchains@.len(),
                    forall|j: int|
                        0 <= j < fns@.len() ==> !contains_view(
                            views_of(*tasks_pending),
                            (#[trigger] fns@[j])@,
                        ),
                decreases statuses@.len() - p,
            {
                let task = TallyResultsTasks {
                    blockchain_name: self.known_blockchains[b].clone(),
                    proposal_status: statuses[p],
                };
                if !task_pending_contains(tasks_pending, &task) {
                    fns.push(task);
                }
                p += 1;
            }
            b += 1;
        }
        fns
    }
    fn get_update_interval_in_secs(&self, _task_type: &TallyResultsTasks) -> (r: i64) {
        self.update_interval_in_secs
    }

    fn get_retry_delay_in_secs(&self, task_type: &TallyResultsTasks) -> (r: i64) {
        let list = &self.retry_delay_in_secs;
        let mut i: usize = list.len();
        proof {
            assert(delays_view(list@).take(i as int) =~= delays_view(list@));
        }
        while i > 0
            invariant
                i <= list@.len(),
                list@ == self.retry_delay_in_secs@,
                delays_view(list@).len() == list@.len(),
                spec_delay_lookup(delays_view(list@), task_type@, self.initial_retry_delay)
                    == spec_delay_lookup(
                    delays_view(list@).take(i as int),
                    task_type@,
                    self.initial_retry_delay,
                ),
            decreases i,
        {
            i -= 1;
            proof {
                assert(delays_view(list@).take(i as int + 1).last() == delays_view(list@)[i as int]);
                assert(delays_view(list@).take(i as int + 1).drop_last() =~= delays_view(
                    list@,
                ).take(i as int));
                assert(delays_view(list@)[i as int] == (list@[i as int].0@, list@[i as int].1));
            }
            if list[i].0.matches_task(task_type) {
                proof {
                    assert(spec_delay_lookup(
                        delays_view(list@).take(i as int + 1),
                        task_type@,
                        self.initial_retry_delay,
                    ) == delays_view(list@)[i as int].1);
                }
                return list[i].1;
            }
        }
        proof {
            assert(delays_view(list@).take(0) =~= Seq::<(<TallyResultsTasks as View>::V, i64)>::empty());
        }
        self.initial_retry_delay
    }

    fn set_retry_delay_in_secs(&mut self, task_type: &TallyResultsTasks, retry_delay: i64) {
        self.retry_delay_in_secs.push((task_type.clone(), retry_delay));
        proof {
            let l = delays_view(self.retry_delay_in_secs@);
            assert(l =~= delays_view(old(self).retry_delay_in_secs@).push(
                (task_type@, retry_delay),
            ));
            assert(l.last() == (task_type@, retry_delay));
            assert(l.drop_last() =~= delays_view(old(self).retry_delay_in_secs@));
        }
    }

    fn reset_retry_delay(&mut self, task_type: &TallyResultsTasks) {
        let baseline = self.initial_retry_delay;
        self.retry_delay_in_secs.push((task_type.clone(), baseline));
        proof {
            let l = delays_view(self.retry_delay_in_secs@);
            assert(l =~= delays_view(old(self).retry_delay_in_secs@).push((task_type@, baseline)));
            assert(l.last() == (task_type@, baseline));
            assert(l.drop_last() =~= delays_view(old(self).retry_delay_in_secs@));
        }
    }
}

/// The one status tally fetches target: proposals still in their voting
/// period.
fn voting_period_only() -> (r: Vec<ProposalStatus>)
    ensures
        r@ =~= seq![ProposalStatus::StatusVotingPeriod],
{
    let mut r: Vec<ProposalStatus> = Vec::new();
    r.push(ProposalStatus::StatusVotingPeriod);
    r
}

/// The key a proposal's tally result is stored under.
pub fn get_tally_result_entry_key(blockchain_name: &str, proposal_id: u64) -> (r: String)
    ensures
        r@ == "governance_"@ + "tally_result_"@ + blockchain_name@ + spec_dec(proposal_id),
{
    let mut s = "governance_".to_owned();
    s.append("tally_result_");
    s.append(blockchain_name);
    let id = u64_to_dec(proposal_id);
    s.append(id.as_str());
    s
}

/// The newest stored tally result for a proposal, as serialized bytes;
/// `None` when none is retrievable.
pub fn try_get_tally_result(
    task_store: &FallbackEntryStore,
    blockchain_name: &str,
    proposal_id: u64,
) -> (r: Option<Vec<u8>>)
    ensures
        r matches Some(b) ==> exists|e: EntrySpec, k: Seq<char>|
            #[trigger] getok_post(task_store@, k, e) && e.data == Ok::<Seq<u8>, EntryErrorSpec>(b@),
{
    let key = get_tally_result_entry_key(blockchain_name, proposal_id);
    match task_store.get(key.as_str(), &RetrievalMethod::GetOk) {
        Ok(item) => {
            let ghost ge = item@;
            let ghost gk = key@;
            match item.data {
                Ok(data) => {
                    proof {
                        assert(getok_post(task_store@, gk, ge));
                        assert(ge.data == Ok::<Seq<u8>, EntryErrorSpec>(data@));
                    }
                    Some(data)
                },
                Err(_) => None,
            }
        },
        Err(_) => None,
    }
}

} // verus!
