//! A demonstration agent: one task instance that lists the store's residual
//! errors and then succeeds or fails at random.

use vstd::prelude::*;
use crate::interface::{Agent, contains_view, views_of, spec_delay_lookup};
use crate::fallback_entry_store::FallbackEntryStore;

verus! {

/// The demonstration agent's configuration and backoff state.
pub struct DummyAgent {
    pub update_interval_in_secs: i64,
    pub retry_delay_in_secs: Vec<(DummyTasks, i64)>,
    initial_retry_delay: i64,
}

/// The demonstration agent's single task instance.
#[derive(Debug, Clone, Copy, PartialEq, Eq, Hash, Structural)]
pub enum DummyTasks {
    DummyTask,
}

impl View for DummyTasks {
    type V = DummyTasks;

    open spec fn view(&self) -> DummyTasks {
        *self
    }
}

impl Default for DummyAgent {
    /// Runs every three seconds, retrying after one.
    fn default() -> (r: DummyAgent)
        ensures
            r.spec_update_interval() == 3,
            r.spec_initial_retry_delay() == 1,
            forall|t: DummyTasks| #[trigger] r.spec_retry_delay(t) == 1,
    {
        let r = DummyAgent {
            update_interval_in_secs: 3,
            retry_delay_in_secs: Vec::new(),
            initial_retry_delay: 1,
        };
        proof {
            assert(r.retry_delay_in_secs@ =~= Seq::<(DummyTasks, i64)>::empty());
        }
        r
    }
}

impl DummyAgent {
    /// The task body: reads the store's residual errors, then succeeds or
    /// fails at random; the failure carries a fixed message.
    pub fn try_something(task_store: &FallbackEntryStore) -> (r: Result<(), String>)
        ensures
            r matches Err(m) ==> m@ == "Randomly generated error"@,
    {
        let errors = task_store.error_iter(None);
        match errors {
            Ok(_) => (),
            Err(_) => (),
        }
        let action = crate::interface::random_jitter(1);
        if action == 0 {
            Ok(())
        } else {
            let msg = "Randomly generated error";
            proof {
                reveal_strlit("Randomly generated error");
            }
            Err(msg.to_owned())
        }
    }
}

/// Whether a task equal to `t` stands in `pending`.
fn dummy_pending_contains(pending: &Vec<DummyTasks>, t: &DummyTasks) -> (r: bool)
    ensures
        r == contains_view(views_of(*pending), t@),
{
    let mut i: usize = 0;
    while i < pending.len()
        invariant
            0 <= i <= pending@.len(),
            forall|j: int| 0 <= j < i ==> views_of(*pending)[j] != t@,
        decreases pending@.len() - i,
    {
        if pending[i] == *t {
            proof {
                assert(views_of(*pending)[i as int] == t@);
            }
            return true;
        }
        i += 1;
    }
    false
}

impl Agent for DummyAgent {
    type TaskType = DummyTasks;

    closed spec fn spec_retry_delay(&self, task: DummyTasks) -> i64 {
        spec_delay_lookup(self.retry_delay_in_secs@, task, self.initial_retry_delay)
    }

    closed spec fn spec_initial_retry_delay(&self) -> i64 {
        self.initial_retry_delay
    }

    closed spec fn spec_update_interval(&self) -> i64 {
        self.update_interval_in_secs
    }

    fn get_tasks(&self, tasks_pending: &Vec<DummyTasks>) -> (r: Vec<DummyTasks>) {
        let mut fns: Vec<DummyTasks> = Vec::new();
        if !dummy_pending_contains(tasks_pending, &DummyTasks::DummyTask) {
            fns.push(DummyTasks::DummyTask);
        }
        fns
    }

    fn get_update_interval_in_secs(&self, _task_type: &DummyTasks) -> (r: i64) {
        self.update_interval_in_secs
    }

    fn get_retry_delay_in_secs(&self, task_type: &DummyTasks) -> (r: i64) {
        let list = &self.retry_delay_in_secs;
        let mut i: usize = list.len();
        proof {
            assert(list@.take(i as int) =~= list@);
        }
        while i > 0
            invariant
                i <= list@.len(),
                list@ == self.retry_delay_in_secs@,
                spec_delay_lookup(list@, *task_type, self.initial_retry_delay)
                    == spec_delay_lookup(
                    list@.take(i as int),
                    *task_type,
                    self.initial_retry_delay,
                ),
            decreases i,
        {
            i -= 1;
            proof {
                assert(list@.take(i as int + 1).last() == list@[i as int]);
                assert(list@.take(i as int + 1).drop_last() =~= list@.take(i as int));
            }
            if list[i].0 == *task_type {
                proof {
                    assert(spec_delay_lookup(
                        list@.take(i as int + 1),
                        *task_type,
                        self.initial_retry_delay,
                    ) == list@[i as int].1);
                }
                return list[i].1;
            }
        }
        proof {
            assert(list@.take(0) =~= Seq::<(DummyTasks, i64)>::empty());
        }
        self.initial_retry_delay
    }

    fn set_retry_delay_in_secs(&mut self, task_type: &DummyTasks, retry_delay: i64) {
        self.retry_delay_in_secs.push((*task_type, retry_delay));
        proof {
            let l = self.retry_delay_in_secs@;
            assert(l.last() == (*task_type, retry_delay));
        }
    }

    fn reset_retry_delay(&mut self, task_type: &DummyTasks) {
        let baseline = self.initial_retry_delay;
        self.retry_delay_in_secs.push((*task_type, baseline));
        proof {
            let l = self.retry_delay_in_secs@;
            assert(l.last() == (*task_type, baseline));
        }
    }
}

} // verus!
