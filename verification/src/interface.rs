//! The agent contract and the scheduler's state model.
//!
//! An agent declares recurring task instances; the manager runs them
//! concurrently, retries failures with exponentially growing, jittered
//! delays, and tracks each instance's state. The asynchronous run loops live
//! outside this crate and drive the [`ManagerState`] model defined here; the
//! model carries the invariants the loops preserve: one worker per task
//! instance, and one live obligation (a running worker or a queued result)
//! per pending registry entry.

use vstd::prelude::*;

verus! {

/// The per-instance state the manager records.
#[derive(Debug, Clone, Copy, PartialEq, Eq, Structural)]
pub enum TaskState {
    /// A worker is running; the value identifies it.
    Pending(u64),
    /// The worker was cancelled at the given time.
    Cancelled(i64),
    /// The worker aborted unexpectedly at the given time.
    Panicked(i64),
    /// The last outcome was an error, observed at the given time.
    Failed(i64),
    /// The last outcome succeeded at the given time.
    Resolved(i64),
}

/// What a worker hands back to the scheduler: its task instance, the outcome,
/// and when it finished.
#[derive(Debug)]
pub struct TaskResult<T> {
    pub task_type: T,
    pub task_result: Result<(), String>,
    pub timestamp: i64,
}

impl<T> TaskResult<T> {
    /// Wraps an outcome, timestamped with the current clock.
    pub fn new(task_type: T, task_result: Result<(), String>) -> (r: TaskResult<T>)
        ensures
            r.task_type == task_type,
            r.task_result == task_result,
    {
        TaskResult { task_type, task_result, timestamp: crate::clock::now_seconds() }
    }
}

/// The longest retry delay backoff ever produces, in seconds.
pub const MAX_RETRY_INTERVAL_SECS: i64 = 300;

/// The next retry delay: twice the current one plus the jitter, clamped to
/// five minutes.
pub open spec fn spec_backoff(current: int, jitter: int) -> int {
    if current * 2 + jitter > 300 {
        300
    } else {
        current * 2 + jitter
    }
}

/// Relies on `rand::random_range`: a value drawn uniformly from `0..=bound`.
/// Which value comes back is up to the generator, so only the range is
/// promised.
#[verifier::external_body]
pub(crate) fn random_jitter(bound: i64) -> (r: i64)
    requires
        bound >= 0,
    ensures
        0 <= r <= bound,
{
    rand::random_range(0..=bound)
}

/// Computes the next retry delay from the current one and a jitter draw.
pub fn backoff_delay(current: i64, jitter: i64) -> (r: i64)
    requires
        0 <= jitter,
        jitter <= current / 2,
    ensures
        r == spec_backoff(current as int, jitter as int),
{
    if current >= 150 {
        MAX_RETRY_INTERVAL_SECS
    } else {
        let v = current * 2 + jitter;
        if v > MAX_RETRY_INTERVAL_SECS {
            MAX_RETRY_INTERVAL_SECS
        } else {
            v
        }
    }
}

/// Three consecutive failures grow the delay as twice-plus-jitter at each
/// step, each result clamped at five minutes; the delays never leave
/// `0..=300` once started from a non-negative baseline.
pub proof fn lemma_backoff_progression(d0: int, j0: int, j1: int, j2: int)
    requires
        0 <= d0,
        0 <= j0 <= d0 / 2,
        0 <= j1 <= spec_backoff(d0, j0) / 2,
        0 <= j2 <= spec_backoff(spec_backoff(d0, j0), j1) / 2,
    ensures
        ({
            let d1 = spec_backoff(d0, j0);
            let d2 = spec_backoff(d1, j1);
            let d3 = spec_backoff(d2, j2);
            &&& d1 == if d0 * 2 + j0 > 300 { 300int } else { d0 * 2 + j0 }
            &&& d2 == if d1 * 2 + j1 > 300 { 300int } else { d1 * 2 + j1 }
            &&& d3 == if d2 * 2 + j2 > 300 { 300int } else { d2 * 2 + j2 }
            &&& d1 <= 300 && d2 <= 300 && d3 <= 300
            &&& d1 >= d0 + j0 || d1 == 300
        }),
{
}

/// The retry delay stored for `task` in an association list, the newest
/// entry winning; `dflt` where none is stored.
pub open spec fn spec_delay_lookup<TV>(l: Seq<(TV, i64)>, task: TV, dflt: i64) -> i64
    decreases l.len(),
{
    if l.len() == 0 {
        dflt
    } else if l.last().0 == task {
        l.last().1
    } else {
        spec_delay_lookup(l.drop_last(), task, dflt)
    }
}

/// The view-level contents of a retry-delay association list.
pub open spec fn delays_view<T: View>(l: Seq<(T, i64)>) -> Seq<(<T as View>::V, i64)> {
    l.map_values(|e: (T, i64)| (e.0@, e.1))
}

/// Whether a view-level element occurs in a sequence of views.
pub open spec fn contains_view<V>(s: Seq<V>, v: V) -> bool {
    exists|i: int| 0 <= i < s.len() && s[i] == v
}

/// The views of a vector's elements.
pub open spec fn views_of<T: View>(v: Vec<T>) -> Seq<T::V> {
    v@.map_values(|t: T| t@)
}

/// The contract every agent implements: enumerate the task instances to run
/// next, and expose the per-instance scheduling parameters.
pub trait Agent: Sized {
    type TaskType: View;

    /// The retry delay currently stored for a task instance.
    spec fn spec_retry_delay(&self, task: <Self::TaskType as View>::V) -> i64;

    /// The baseline the retry delay is reset to after a success.
    spec fn spec_initial_retry_delay(&self) -> i64;

    /// The time from a success until the next attempt is enqueued.
    spec fn spec_update_interval(&self) -> i64;

    /// Every task instance the agent wants to run now, excluding those whose
    /// views appear in `tasks_pending`.
    fn get_tasks(&self, tasks_pending: &Vec<Self::TaskType>) -> (r: Vec<Self::TaskType>)
        ensures
            forall|i: int|
                0 <= i < r@.len() ==> !contains_view(views_of(*tasks_pending), (#[trigger] r@[i])@),
    ;

    /// The update interval for a task instance.
    fn get_update_interval_in_secs(&self, task_type: &Self::TaskType) -> (r: i64)
        ensures
            r == self.spec_update_interval(),
    ;

    /// The current retry delay for a task instance.
    fn get_retry_delay_in_secs(&self, task_type: &Self::TaskType) -> (r: i64)
        ensures
            r == self.spec_retry_delay(task_type@),
    ;

    /// Stores a new retry delay for a task instance.
    fn set_retry_delay_in_secs(&mut self, task_type: &Self::TaskType, retry_delay: i64)
        ensures
            final(self).spec_retry_delay(task_type@) == retry_delay,
            final(self).spec_initial_retry_delay() == old(self).spec_initial_retry_delay(),
            final(self).spec_update_interval() == old(self).spec_update_interval(),
    ;

    /// Restores the baseline retry delay for a task instance, as done after a
    /// success.
    fn reset_retry_delay(&mut self, task_type: &Self::TaskType)
        ensures
            final(self).spec_retry_delay(task_type@) == old(self).spec_initial_retry_delay(),
            final(self).spec_initial_retry_delay() == old(self).spec_initial_retry_delay(),
            final(self).spec_update_interval() == old(self).spec_update_interval(),
    ;

    /// Doubles the retry delay for a task instance and adds a random jitter
    /// of up to half the current delay, clamping at five minutes; run after
    /// each failure.
    fn exponential_backoff_with_jitter(&mut self, task_type: &Self::TaskType)
        requires
            old(self).spec_retry_delay(task_type@) >= 0,
        ensures
            exists|j: i64|
                0 <= j <= old(self).spec_retry_delay(task_type@) / 2 && final(self).spec_retry_delay(
                    task_type@,
                ) == spec_backoff(old(self).spec_retry_delay(task_type@) as int, j as int),
            final(self).spec_initial_retry_delay() == old(self).spec_initial_retry_delay(),
            final(self).spec_update_interval() == old(self).spec_update_interval(),
    {
        let current_retry_delay = self.get_retry_delay_in_secs(task_type);
        let jitter = random_jitter(current_retry_delay / 2);
        let val = backoff_delay(current_retry_delay, jitter);
        self.set_retry_delay_in_secs(task_type, val);
    }
}


/// Whether a task state records a running worker.
pub open spec fn is_pending(st: TaskState) -> bool {
    st is Pending
}

/// How many registry entries record a running or queued obligation.
pub open spec fn count_pending(reg: Seq<(Seq<char>, TaskState)>) -> int
    decreases reg.len(),
{
    if reg.len() == 0 {
        0
    } else {
        count_pending(reg.drop_last()) + if is_pending(reg.last().1) {
            1int
        } else {
            0int
        }
    }
}

/// Appending an entry adds its pending bit to the count.
pub proof fn lemma_count_push(reg: Seq<(Seq<char>, TaskState)>, e: (Seq<char>, TaskState))
    ensures
        count_pending(reg.push(e)) == count_pending(reg) + if is_pending(e.1) {
            1int
        } else {
            0int
        },
{
    assert(reg.push(e).drop_last() =~= reg);
    assert(reg.push(e).last() == e);
}

/// Replacing an entry swaps its pending bit in the count.
pub proof fn lemma_count_update(reg: Seq<(Seq<char>, TaskState)>, i: int, e: (Seq<char>, TaskState))
    requires
        0 <= i < reg.len(),
    ensures
        count_pending(reg.update(i, e)) == count_pending(reg) - (if is_pending(reg[i].1) {
            1int
        } else {
            0int
        }) + (if is_pending(e.1) {
            1int
        } else {
            0int
        }),
    decreases reg.len(),
{
    if i == reg.len() - 1 {
        assert(reg.update(i, e).drop_last() =~= reg.drop_last());
        assert(reg.update(i, e).last() == e);
        assert(reg.last() == reg[i]);
    } else {
        assert(reg.update(i, e).drop_last() =~= reg.drop_last().update(i, e));
        assert(reg.update(i, e).last() == reg.last());
        lemma_count_update(reg.drop_last(), i, e);
        assert(reg.drop_last()[i] == reg[i]);
    }
}

/// The manager's scheduling state: one entry per task instance, the
/// identifiers of the workers currently running, and the instances whose
/// finished results sit in the delay queue awaiting their re-run time.
pub struct ManagerState {
    registry: Vec<(String, TaskState)>,
    running: Vec<u64>,
    queued: Vec<String>,
}

/// The mathematical value of a [`ManagerState`].
pub struct ManagerSpec {
    pub registry: Seq<(Seq<char>, TaskState)>,
    pub running: Seq<u64>,
    pub queued: Seq<Seq<char>>,
}

impl View for ManagerState {
    type V = ManagerSpec;

    closed spec fn view(&self) -> ManagerSpec {
        ManagerSpec {
            registry: self.registry@.map_values(|e: (String, TaskState)| (e.0@, e.1)),
            running: self.running@,
            queued: self.queued@.map_values(|k: String| k@),
        }
    }
}

/// The task instance `k` has a pending registry entry.
pub open spec fn pending_key(v: ManagerSpec, k: Seq<char>) -> bool {
    exists|i: int| 0 <= i < v.registry.len() && (#[trigger] v.registry[i]).0 == k && v.registry[i].1 is Pending
}

/// Registry keys are unique: at most one entry per task instance.
pub open spec fn registry_keys_distinct(v: ManagerSpec) -> bool {
    forall|i: int, j: int|
        0 <= i < v.registry.len() && 0 <= j < v.registry.len() && i != j ==> (
        #[trigger] v.registry[i]).0 != (#[trigger] v.registry[j]).0
}

/// Worker identifiers are unique.
pub open spec fn running_distinct(v: ManagerSpec) -> bool {
    forall|i: int, j: int|
        0 <= i < v.running.len() && 0 <= j < v.running.len() && i != j ==> (
        #[trigger] v.running[i]) != (#[trigger] v.running[j])
}

/// Queued instances are unique.
pub open spec fn queued_distinct(v: ManagerSpec) -> bool {
    forall|i: int, j: int|
        0 <= i < v.queued.len() && 0 <= j < v.queued.len() && i != j ==> (#[trigger] v.queued[i])
            != (#[trigger] v.queued[j])
}

/// Every pending entry is backed by exactly one live obligation: a running
/// worker or a queued result, never both; settled entries have neither.
pub open spec fn obligations_ok(v: ManagerSpec) -> bool {
    forall|i: int|
        0 <= i < v.registry.len() ==> match (#[trigger] v.registry[i]).1 {
            TaskState::Pending(id) => (v.running.contains(id) && !v.queued.contains(
                v.registry[i].0,
            )) || (!v.running.contains(id) && v.queued.contains(v.registry[i].0)),
            _ => !v.queued.contains(v.registry[i].0),
        }
}

/// Every running worker has a pending registry entry naming it.
pub open spec fn running_backed(v: ManagerSpec) -> bool {
    forall|i: int|
        0 <= i < v.running.len() ==> exists|j: int|
            0 <= j < v.registry.len() && (#[trigger] v.registry[j]).1 == TaskState::Pending(
                #[trigger] v.running[i],
            )
}

/// The `i`th queued instance has a pending registry entry.
pub open spec fn queued_entry_backed(v: ManagerSpec, i: int) -> bool {
    exists|j: int|
        0 <= j < v.registry.len() && (#[trigger] v.registry[j]).0 == v.queued[i]
            && v.registry[j].1 is Pending
}

/// Every queued instance has a pending registry entry.
pub open spec fn queued_backed(v: ManagerSpec) -> bool {
    forall|i: int| 0 <= i < v.queued.len() ==> #[trigger] queued_entry_backed(v, i)
}

/// Distinct pending entries name distinct workers.
pub open spec fn pending_ids_distinct(v: ManagerSpec) -> bool {
    forall|i: int, j: int|
        0 <= i < v.registry.len() && 0 <= j < v.registry.len() && i != j && (
        #[trigger] v.registry[i]).1 is Pending && (#[trigger] v.registry[j]).1 is Pending
            ==> v.registry[i].1 != v.registry[j].1
}

/// The scheduling invariant the run loops preserve.
///
/// Registry keys are unique, worker identifiers are unique and registered,
/// every pending entry is backed by exactly one live obligation — a running
/// worker or a queued result — and the number of pending entries equals the
/// running workers plus the queued results.
pub open spec fn manager_wf(v: ManagerSpec) -> bool {
    &&& registry_keys_distinct(v)
    &&& running_distinct(v)
    &&& queued_distinct(v)
    &&& obligations_ok(v)
    &&& running_backed(v)
    &&& queued_backed(v)
    &&& pending_ids_distinct(v)
    &&& count_pending(v.registry) == v.running.len() + v.queued.len()
}

/// At most one worker runs per task instance: distinct live workers always
/// belong to distinct registry entries, and so to distinct task instances.
pub proof fn lemma_one_worker_per_task(v: ManagerSpec, i1: int, i2: int)
    requires
        manager_wf(v),
        0 <= i1 < v.registry.len(),
        0 <= i2 < v.registry.len(),
        i1 != i2,
        v.registry[i1].1 is Pending,
        v.registry[i2].1 is Pending,
    ensures
        v.registry[i1].0 != v.registry[i2].0,
        v.registry[i1].1 != v.registry[i2].1,
{
}

/// The manager holds as many pending task instances as it has live
/// obligations: running workers plus queued results.
pub proof fn lemma_pending_matches_obligations(v: ManagerSpec)
    requires
        manager_wf(v),
    ensures
        count_pending(v.registry) == v.running.len() + v.queued.len(),
{
}

impl ManagerState {
    /// A manager with no tasks, no workers, and nothing queued.
    pub fn new() -> (r: ManagerState)
        ensures
            manager_wf(r@),
            r@.registry.len() == 0,
            r@.running.len() == 0,
            r@.queued.len() == 0,
    {
        let r = ManagerState { registry: Vec::new(), running: Vec::new(), queued: Vec::new() };
        proof {
            assert(r@.registry =~= Seq::<(Seq<char>, TaskState)>::empty());
            assert(r@.queued =~= Seq::<Seq<char>>::empty());
        }
        r
    }

    /// The position of `key` in the registry, where present.
    fn find_key(&self, key: &String) -> (r: Option<usize>)
        ensures
            match r {
                Some(i) => i < self@.registry.len() && self@.registry[i as int].0 == key@,
                None => forall|i: int|
                    0 <= i < self@.registry.len() ==> (#[trigger] self@.registry[i]).0 != key@,
            },
    {
        let mut i: usize = 0;
        while i < self.registry.len()
            invariant
                0 <= i <= self@.registry.len(),
                self@.registry.len() == self.registry@.len(),
                forall|j: int| 0 <= j < i ==> (#[trigger] self@.registry[j]).0 != key@,
            decreases self@.registry.len() - i,
        {
            if self.registry[i].0 == *key {
                return Some(i);
            }
            i += 1;
        }
        None
    }

    /// The position of the entry pending under worker `id`, where present.
    fn find_pending_id(&self, id: u64) -> (r: Option<usize>)
        ensures
            match r {
                Some(i) => i < self@.registry.len() && self@.registry[i as int].1
                    == TaskState::Pending(id),
                None => forall|i: int|
                    0 <= i < self@.registry.len() ==> (#[trigger] self@.registry[i]).1
                        != TaskState::Pending(id),
            },
    {
        let mut i: usize = 0;
        while i < self.registry.len()
            invariant
                0 <= i <= self@.registry.len(),
                self@.registry.len() == self.registry@.len(),
                forall|j: int|
                    0 <= j < i ==> (#[trigger] self@.registry[j]).1 != TaskState::Pending(id),
            decreases self@.registry.len() - i,
        {
            match self.registry[i].1 {
                TaskState::Pending(found) => {
                    if found == id {
                        return Some(i);
                    }
                },
                _ => (),
            }
            i += 1;
        }
        None
    }

    /// The position of `id` among the running workers, where present.
    fn find_running(&self, id: u64) -> (r: Option<usize>)
        ensures
            match r {
                Some(i) => i < self@.running.len() && self@.running[i as int] == id,
                None => !self@.running.contains(id),
            },
    {
        let mut i: usize = 0;
        while i < self.running.len()
            invariant
                0 <= i <= self@.running.len(),
                self@.running.len() == self.running@.len(),
                forall|j: int| 0 <= j < i ==> (#[trigger] self@.running[j]) != id,
            decreases self@.running.len() - i,
        {
            if self.running[i] == id {
                return Some(i);
            }
            i += 1;
        }
        None
    }

    /// The position of `key` among the queued results, where present.
    fn find_queued(&self, key: &String) -> (r: Option<usize>)
        ensures
            match r {
                Some(i) => i < self@.queued.len() && self@.queued[i as int] == key@,
                None => !self@.queued.contains(key@),
            },
    {
        let mut i: usize = 0;
        while i < self.queued.len()
            invariant
                0 <= i <= self@.queued.len(),
                self@.queued.len() == self.queued@.len(),
                forall|j: int| 0 <= j < i ==> (#[trigger] self@.queued[j]) != key@,
            decreases self@.queued.len() - i,
        {
            if self.queued[i] == *key {
                return Some(i);
            }
            i += 1;
        }
        None
    }

    /// Whether a worker is currently recorded as running for `key`.
    pub fn is_pending_key(&self, key: &String) -> (r: bool)
        requires
            manager_wf(self@),
        ensures
            r == pending_key(self@, key@),
    {
        match self.find_key(key) {
            Some(i) => {
                let r = match self.registry[i].1 {
                    TaskState::Pending(_) => true,
                    _ => false,
                };
                proof {
                    if r {
                        assert(pending_key(self@, key@));
                    } else {
                        if pending_key(self@, key@) {
                            let j = choose|j: int|
                                0 <= j < self@.registry.len() && (#[trigger] self@.registry[j]).0
                                    == key@ && self@.registry[j].1 is Pending;
                            assert(j == i);
                        }
                    }
                }
                r
            },
            None => {
                proof {
                    if pending_key(self@, key@) {
                        let j = choose|j: int|
                            0 <= j < self@.registry.len() && (#[trigger] self@.registry[j]).0
                                == key@ && self@.registry[j].1 is Pending;
                    }
                }
                false
            },
        }
    }
}


/// Membership in a sequence after a push: the old members plus the new one.
pub proof fn lemma_push_contains<A>(s: Seq<A>, x: A, y: A)
    ensures
        s.push(x).contains(y) <==> (s.contains(y) || y == x),
{
    if s.contains(y) {
        let i = choose|i: int| 0 <= i < s.len() && s[i] == y;
        assert(s.push(x)[i] == y);
    }
    if y == x {
        assert(s.push(x)[s.len() as int] == y);
    }
    if s.push(x).contains(y) {
        let i = choose|i: int| 0 <= i < s.push(x).len() && s.push(x)[i] == y;
        if i < s.len() {
            assert(s[i] == y);
        }
    }
}

/// Membership in a duplicate-free sequence after removing position `i`: the
/// old members except the one that stood there.
pub proof fn lemma_remove_contains<A>(s: Seq<A>, i: int, y: A)
    requires
        0 <= i < s.len(),
        forall|p: int, q: int|
            0 <= p < s.len() && 0 <= q < s.len() && p != q ==> (#[trigger] s[p]) != (#[trigger] s[q]),
    ensures
        s.remove(i).contains(y) <==> (s.contains(y) && y != s[i]),
{
    s.remove_ensures(i);
    if s.remove(i).contains(y) {
        let j = choose|j: int| 0 <= j < s.remove(i).len() && s.remove(i)[j] == y;
        if j < i {
            assert(s[j] == y);
        } else {
            assert(s[j + 1] == y);
        }
    }
    if s.contains(y) && y != s[i] {
        let j = choose|j: int| 0 <= j < s.len() && s[j] == y;
        if j < i {
            assert(s.remove(i)[j] == y);
        } else {
            assert(j > i);
            assert(s.remove(i)[j - 1] == y);
        }
    }
}

/// The registry after recording `st` under `k`: the entry with key `k` is
/// replaced where one exists, appended otherwise.
pub open spec fn registry_set(
    r0: Seq<(Seq<char>, TaskState)>,
    r1: Seq<(Seq<char>, TaskState)>,
    k: Seq<char>,
    st: TaskState,
) -> bool {
    ||| (exists|i: int|
        0 <= i < r0.len() && (#[trigger] r0[i]).0 == k && r1 == r0.update(i, (k, st)))
    ||| ((forall|i: int| 0 <= i < r0.len() ==> (#[trigger] r0[i]).0 != k) && r1 == r0.push((k, st)))
}

impl ManagerState {
    /// Records a fresh worker `id` for the instance `key` and marks the
    /// instance pending. The instance must not already have a worker, and the
    /// identifier must be new.
    pub fn spawn(&mut self, key: &String, id: u64)
        requires
            manager_wf(old(self)@),
            !pending_key(old(self)@, key@),
            !old(self)@.running.contains(id),
            forall|i: int|
                0 <= i < old(self)@.registry.len() ==> (#[trigger] old(self)@.registry[i]).1
                    != TaskState::Pending(id),
        ensures
            manager_wf(final(self)@),
            pending_key(final(self)@, key@),
            registry_set(
                old(self)@.registry,
                final(self)@.registry,
                key@,
                TaskState::Pending(id),
            ),
            final(self)@.running == old(self)@.running.push(id),
            final(self)@.queued == old(self)@.queued,
    {
        let ghost v0 = self@;
        let st = TaskState::Pending(id);
        match self.find_key(key) {
            Some(i) => {
                self.registry[i].1 = st;
                proof {
                    assert(self@.registry =~= v0.registry.update(i as int, (key@, st)));
                }
            },
            None => {
                self.registry.push((key.clone(), st));
                proof {
                    assert(self@.registry =~= v0.registry.push((key@, st)));
                }
            },
        }
        self.running.push(id);
        proof {
            lemma_spawn_wf(v0, self@, key@, id);
        }
    }

    /// Records that worker `id` finished and its result entered the delay
    /// queue; returns the instance the worker belonged to.
    pub fn finish(&mut self, id: u64) -> (key: String)
        requires
            manager_wf(old(self)@),
            old(self)@.running.contains(id),
        ensures
            manager_wf(final(self)@),
            final(self)@.registry == old(self)@.registry,
            final(self)@.queued == old(self)@.queued.push(key@),
            !final(self)@.running.contains(id),
            final(self)@.running.len() == old(self)@.running.len() - 1,
            forall|x: u64|
                x != id ==> (final(self)@.running.contains(x) <==> old(self)@.running.contains(x)),
            exists|j: int|
                0 <= j < old(self)@.registry.len() && old(self)@.registry[j] == (
                key@,
                TaskState::Pending(id),
            ),
    {
        let ghost v0 = self@;
        proof {
            let ri = choose|ri: int| 0 <= ri < v0.running.len() && v0.running[ri] == id;
            assert(exists|j: int|
                0 <= j < v0.registry.len() && (#[trigger] v0.registry[j]).1 == TaskState::Pending(
                    id,
                ));
        }
        let key: String = match self.find_pending_id(id) {
            Some(i) => self.registry[i].0.clone(),
            None => {
                proof {
                    assert(false);
                }
                String::new()
            },
        };
        let ridx: usize = match self.find_running(id) {
            Some(ri) => ri,
            None => {
                proof {
                    assert(false);
                }
                0
            },
        };
        self.running.remove(ridx);
        self.queued.push(key.clone());
        proof {
            assert(self@.queued =~= v0.queued.push(key@));
            lemma_finish_wf(v0, self@, key@, id, ridx as int);
        }
        key
    }

    /// Records that the queued result of `key` expired from the delay queue
    /// and the instance's outcome is now on the books.
    pub fn expire(&mut self, key: &String, success: bool, now: i64)
        requires
            manager_wf(old(self)@),
            old(self)@.queued.contains(key@),
        ensures
            manager_wf(final(self)@),
            registry_set(
                old(self)@.registry,
                final(self)@.registry,
                key@,
                if success {
                    TaskState::Resolved(now)
                } else {
                    TaskState::Failed(now)
                },
            ),
            final(self)@.running == old(self)@.running,
            !final(self)@.queued.contains(key@),
            final(self)@.queued.len() == old(self)@.queued.len() - 1,
            forall|x: Seq<char>|
                x != key@ ==> (final(self)@.queued.contains(x) <==> old(self)@.queued.contains(x)),
    {
        let ghost v0 = self@;
        let st = if success {
            TaskState::Resolved(now)
        } else {
            TaskState::Failed(now)
        };
        let qidx: usize = match self.find_queued(key) {
            Some(qi) => qi,
            None => {
                proof {
                    assert(false);
                }
                0
            },
        };
        self.queued.remove(qidx);
        proof {
            let qi = choose|qi: int| 0 <= qi < v0.queued.len() && v0.queued[qi] == key@;
            assert(queued_entry_backed(v0, qi));
            assert(exists|j: int|
                0 <= j < v0.registry.len() && (#[trigger] v0.registry[j]).0 == key@
                    && v0.registry[j].1 is Pending);
            assert(self@.queued =~= v0.queued.remove(qidx as int));
        }
        match self.find_key(key) {
            Some(i) => {
                self.registry[i].1 = st;
                proof {
                    assert(self@.registry =~= v0.registry.update(i as int, (key@, st)));
                    lemma_expire_wf(v0, self@, key@, st, i as int, qidx as int);
                }
            },
            None => {
                proof {
                    assert(false);
                }
            },
        }
    }

    /// Records that worker `id` was aborted: the instance it ran is marked
    /// cancelled or panicked and the worker is gone.
    pub fn abort(&mut self, id: u64, cancelled: bool, now: i64)
        requires
            manager_wf(old(self)@),
            old(self)@.running.contains(id),
        ensures
            manager_wf(final(self)@),
            cancelled ==> exists|k: Seq<char>|
                #[trigger] registry_set(
                    old(self)@.registry,
                    final(self)@.registry,
                    k,
                    TaskState::Cancelled(now),
                ) && pending_key(old(self)@, k),
            !cancelled ==> exists|k: Seq<char>|
                #[trigger] registry_set(
                    old(self)@.registry,
                    final(self)@.registry,
                    k,
                    TaskState::Panicked(now),
                ) && pending_key(old(self)@, k),
            !final(self)@.running.contains(id),
            final(self)@.running.len() == old(self)@.running.len() - 1,
            forall|x: u64|
                x != id ==> (final(self)@.running.contains(x) <==> old(self)@.running.contains(x)),
            final(self)@.queued == old(self)@.queued,
    {
        let ghost v0 = self@;
        let st = if cancelled {
            TaskState::Cancelled(now)
        } else {
            TaskState::Panicked(now)
        };
        proof {
            let ri = choose|ri: int| 0 <= ri < v0.running.len() && v0.running[ri] == id;
            assert(exists|j: int|
                0 <= j < v0.registry.len() && (#[trigger] v0.registry[j]).1 == TaskState::Pending(
                    id,
                ));
        }
        let i: usize = match self.find_pending_id(id) {
            Some(i) => i,
            None => {
                proof {
                    assert(false);
                }
                0
            },
        };
        let ghost k = v0.registry[i as int].0;
        self.registry[i].1 = st;
        let ridx: usize = match self.find_running(id) {
            Some(ri) => ri,
            None => {
                proof {
                    assert(false);
                }
                0
            },
        };
        self.running.remove(ridx);
        proof {
            assert(self@.registry =~= v0.registry.update(i as int, (k, st)));
            lemma_abort_wf(v0, self@, k, st, id, i as int, ridx as int);
            assert(v0.registry[i as int].0 == k && v0.registry[i as int].1 is Pending);
            assert(pending_key(v0, k));
            assert(registry_set(v0.registry, self@.registry, k, st)) by {
                assert(0 <= (i as int) && (i as int) < v0.registry.len() && v0.registry[
                    i as int].0 == k && self@.registry == v0.registry.update(i as int, (k, st)));
            }
        }
    }
}


/// Updating one registry entry keeps every remaining queued instance backed,
/// as long as the updated instance is no longer queued.
proof fn lemma_queued_backed_after_update(
    v0: ManagerSpec,
    v1: ManagerSpec,
    ui: int,
    k: Seq<char>,
    st: TaskState,
)
    requires
        queued_backed(v0),
        0 <= ui < v0.registry.len(),
        v0.registry[ui].0 == k,
        v1.registry == v0.registry.update(ui, (k, st)),
        forall|x: Seq<char>|
            #[trigger] v1.queued.contains(x) ==> v0.queued.contains(x) && x != k,
    ensures
        queued_backed(v1),
{
    assert forall|i: int| 0 <= i < v1.queued.len() implies #[trigger] queued_entry_backed(
        v1,
        i,
    ) by {
        let x = v1.queued[i];
        assert(v1.queued.contains(x));
        assert(v0.queued.contains(x) && x != k);
        let q0 = choose|q0: int| 0 <= q0 < v0.queued.len() && v0.queued[q0] == x;
        assert(queued_entry_backed(v0, q0));
        let j = choose|j: int|
            0 <= j < v0.registry.len() && (#[trigger] v0.registry[j]).0 == v0.queued[q0]
                && v0.registry[j].1 is Pending;
        assert(j != ui);
        assert(v1.registry[j] == v0.registry[j]);
        assert(v1.registry[j].0 == x && v1.registry[j].1 is Pending);
        assert(queued_entry_backed(v1, i));
    }
}

/// Spawning preserves the scheduling invariant.
#[verifier::rlimit(100)]
#[verifier::spinoff_prover]
proof fn lemma_spawn_wf(v0: ManagerSpec, v1: ManagerSpec, k: Seq<char>, id: u64)
    requires
        manager_wf(v0),
        !pending_key(v0, k),
        !v0.running.contains(id),
        forall|i: int|
            0 <= i < v0.registry.len() ==> (#[trigger] v0.registry[i]).1 != TaskState::Pending(id),
        registry_set(v0.registry, v1.registry, k, TaskState::Pending(id)),
        v1.running == v0.running.push(id),
        v1.queued == v0.queued,
    ensures
        manager_wf(v1),
        pending_key(v1, k),
{
    let r0 = v0.registry;
    let r1 = v1.registry;
    let st = TaskState::Pending(id);
    assert(!v0.queued.contains(k)) by {
        if v0.queued.contains(k) {
            let qi = choose|qi: int| 0 <= qi < v0.queued.len() && v0.queued[qi] == k;
            assert(queued_entry_backed(v0, qi));
            let j = choose|j: int|
                0 <= j < r0.len() && (#[trigger] r0[j]).0 == v0.queued[qi] && r0[j].1 is Pending;
            assert(pending_key(v0, k));
        }
    }
    assert forall|x: u64| #[trigger] v1.running.contains(x) <==> (v0.running.contains(x) || x
        == id) by {
        lemma_push_contains(v0.running, id, x);
    }
    assert forall|p: int, q: int|
        0 <= p < v1.running.len() && 0 <= q < v1.running.len() && p != q implies (
    #[trigger] v1.running[p]) != (#[trigger] v1.running[q]) by {
        if p < v0.running.len() && q < v0.running.len() {
        } else if p < v0.running.len() {
            assert(v1.running[q] == id);
            assert(v0.running.contains(v0.running[p]));
        } else {
            assert(v1.running[p] == id);
            assert(v0.running.contains(v0.running[q]));
        }
    }
    if exists|i: int| 0 <= i < r0.len() && (#[trigger] r0[i]).0 == k && r1 == r0.update(i, (k, st)) {
        let ui = choose|i: int|
            0 <= i < r0.len() && (#[trigger] r0[i]).0 == k && r1 == r0.update(i, (k, st));
        assert(!(r0[ui].1 is Pending)) by {
            if r0[ui].1 is Pending {
                assert(pending_key(v0, k));
            }
        }
        assert forall|i: int|
            0 <= i < r1.len() implies match (#[trigger] r1[i]).1 {
            TaskState::Pending(id2) => (v1.running.contains(id2) && !v1.queued.contains(r1[i].0))
                || (!v1.running.contains(id2) && v1.queued.contains(r1[i].0)),
            _ => !v1.queued.contains(r1[i].0),
        } by {
            if i != ui {
                assert(r1[i] == r0[i]);
                match r0[i].1 {
                    TaskState::Pending(id2) => {
                        assert(id2 != id);
                    },
                    _ => {},
                }
            }
        }
        assert forall|ri: int| 0 <= ri < v1.running.len() implies exists|j: int|
            0 <= j < r1.len() && (#[trigger] r1[j]).1 == TaskState::Pending(
                #[trigger] v1.running[ri],
            ) by {
            if ri < v0.running.len() {
                let j = choose|j: int|
                    0 <= j < r0.len() && (#[trigger] r0[j]).1 == TaskState::Pending(
                        v0.running[ri],
                    );
                assert(j != ui);
                assert(r1[j].1 == TaskState::Pending(v1.running[ri]));
            } else {
                assert(v1.running[ri] == id);
                assert(r1[ui].1 == TaskState::Pending(id));
            }
        }
        assert forall|qi: int| 0 <= qi < v1.queued.len() implies #[trigger] queued_entry_backed(
            v1,
            qi,
        ) by {
            assert(queued_entry_backed(v0, qi));
            assert(v0.queued.contains(v0.queued[qi]));
            let j = choose|j: int|
                0 <= j < r0.len() && (#[trigger] r0[j]).0 == v0.queued[qi] && r0[j].1 is Pending;
            assert(v0.queued[qi] != k);
            assert(j != ui);
            assert(r1[j].0 == v1.queued[qi] && r1[j].1 is Pending);
            assert(queued_entry_backed(v1, qi));
        }
        assert forall|p: int, q: int|
            0 <= p < r1.len() && 0 <= q < r1.len() && p != q implies (#[trigger] r1[p]).0 != (
        #[trigger] r1[q]).0 by {
            assert(r1[p].0 == r0[p].0);
            assert(r1[q].0 == r0[q].0);
        }
        assert forall|p: int, q: int|
            0 <= p < r1.len() && 0 <= q < r1.len() && p != q && (#[trigger] r1[p]).1 is Pending
                && (#[trigger] r1[q]).1 is Pending implies r1[p].1 != r1[q].1 by {
            if p != ui && q != ui {
                assert(r1[p] == r0[p] && r1[q] == r0[q]);
            } else if p == ui {
                assert(r1[q] == r0[q]);
                assert(r0[q].1 != TaskState::Pending(id));
            } else {
                assert(r1[p] == r0[p]);
                assert(r0[p].1 != TaskState::Pending(id));
            }
        }
        lemma_count_update(r0, ui, (k, st));
        assert(pending_key(v1, k)) by {
            assert(r1[ui].0 == k && r1[ui].1 is Pending);
        }
    } else {
        let nl = r0.len() as int;
        assert(r1 == r0.push((k, st)));
        assert forall|i: int|
            0 <= i < r1.len() implies match (#[trigger] r1[i]).1 {
            TaskState::Pending(id2) => (v1.running.contains(id2) && !v1.queued.contains(r1[i].0))
                || (!v1.running.contains(id2) && v1.queued.contains(r1[i].0)),
            _ => !v1.queued.contains(r1[i].0),
        } by {
            if i < nl {
                assert(r1[i] == r0[i]);
                match r0[i].1 {
                    TaskState::Pending(id2) => {
                        assert(id2 != id);
                    },
                    _ => {},
                }
            } else {
                assert(r1[i] == (k, st));
            }
        }
        assert forall|ri: int| 0 <= ri < v1.running.len() implies exists|j: int|
            0 <= j < r1.len() && (#[trigger] r1[j]).1 == TaskState::Pending(
                #[trigger] v1.running[ri],
            ) by {
            if ri < v0.running.len() {
                let j = choose|j: int|
                    0 <= j < r0.len() && (#[trigger] r0[j]).1 == TaskState::Pending(
                        v0.running[ri],
                    );
                assert(r1[j].1 == TaskState::Pending(v1.running[ri]));
            } else {
                assert(v1.running[ri] == id);
                assert(r1[nl].1 == TaskState::Pending(id));
            }
        }
        assert forall|qi: int| 0 <= qi < v1.queued.len() implies #[trigger] queued_entry_backed(
            v1,
            qi,
        ) by {
            assert(queued_entry_backed(v0, qi));
            let j = choose|j: int|
                0 <= j < r0.len() && (#[trigger] r0[j]).0 == v0.queued[qi] && r0[j].1 is Pending;
            assert(r1[j].0 == v1.queued[qi] && r1[j].1 is Pending);
            assert(queued_entry_backed(v1, qi));
        }
        assert forall|p: int, q: int|
            0 <= p < r1.len() && 0 <= q < r1.len() && p != q implies (#[trigger] r1[p]).0 != (
        #[trigger] r1[q]).0 by {
            if p < nl && q < nl {
                assert(r1[p] == r0[p] && r1[q] == r0[q]);
            } else if p < nl {
                assert(r1[q].0 == k && r1[p].0 == r0[p].0);
            } else {
                assert(r1[p].0 == k && r1[q].0 == r0[q].0);
            }
        }
        assert forall|p: int, q: int|
            0 <= p < r1.len() && 0 <= q < r1.len() && p != q && (#[trigger] r1[p]).1 is Pending
                && (#[trigger] r1[q]).1 is Pending implies r1[p].1 != r1[q].1 by {
            if p < nl && q < nl {
                assert(r1[p] == r0[p] && r1[q] == r0[q]);
            } else if p < nl {
                assert(r1[p] == r0[p]);
                assert(r0[p].1 != TaskState::Pending(id));
            } else {
                assert(r1[q] == r0[q]);
                assert(r0[q].1 != TaskState::Pending(id));
            }
        }
        lemma_count_push(r0, (k, st));
        assert(pending_key(v1, k)) by {
            assert(r1[nl].0 == k && r1[nl].1 is Pending);
        }
    }
    assert(registry_keys_distinct(v1));
    assert(running_distinct(v1));
    assert(queued_distinct(v1));
    assert(obligations_ok(v1));
    assert(running_backed(v1));
    assert(queued_backed(v1));
    assert(pending_ids_distinct(v1));
}

/// Finishing a worker preserves the scheduling invariant.
#[verifier::rlimit(100)]
#[verifier::spinoff_prover]
proof fn lemma_finish_wf(v0: ManagerSpec, v1: ManagerSpec, k: Seq<char>, id: u64, ridx: int)
    requires
        manager_wf(v0),
        0 <= ridx < v0.running.len(),
        v0.running[ridx] == id,
        exists|j: int|
            0 <= j < v0.registry.len() && #[trigger] v0.registry[j] == (k, TaskState::Pending(id)),
        v1.registry == v0.registry,
        v1.running == v0.running.remove(ridx),
        v1.queued == v0.queued.push(k),
    ensures
        manager_wf(v1),
        !v1.running.contains(id),
        forall|x: u64| x != id ==> (v1.running.contains(x) <==> v0.running.contains(x)),
{
    let r0 = v0.registry;
    let j0 = choose|j: int|
        0 <= j < r0.len() && #[trigger] r0[j] == (k, TaskState::Pending(id));
    assert(v0.running.contains(id));
    assert(!v0.queued.contains(k));
    assert forall|x: u64| #[trigger] v1.running.contains(x) <==> (v0.running.contains(x) && x
        != id) by {
        lemma_remove_contains(v0.running, ridx, x);
    }
    assert forall|x: Seq<char>| #[trigger] v1.queued.contains(x) <==> (v0.queued.contains(x) || x
        == k) by {
        lemma_push_contains(v0.queued, k, x);
    }
    v0.running.remove_ensures(ridx);
    assert forall|p: int, q: int|
        0 <= p < v1.running.len() && 0 <= q < v1.running.len() && p != q implies (
    #[trigger] v1.running[p]) != (#[trigger] v1.running[q]) by {
        let p0: int = if p < ridx {
            p
        } else {
            p + 1
        };
        let q0: int = if q < ridx {
            q
        } else {
            q + 1
        };
        assert(v1.running[p] == v0.running[p0]);
        assert(v1.running[q] == v0.running[q0]);
    }
    assert forall|p: int, q: int|
        0 <= p < v1.queued.len() && 0 <= q < v1.queued.len() && p != q implies (
    #[trigger] v1.queued[p]) != (#[trigger] v1.queued[q]) by {
        if p < v0.queued.len() && q < v0.queued.len() {
        } else if p < v0.queued.len() {
            assert(v1.queued[q] == k);
            assert(v0.queued.contains(v0.queued[p]));
        } else {
            assert(v1.queued[p] == k);
            assert(v0.queued.contains(v0.queued[q]));
        }
    }
    assert forall|i: int|
        0 <= i < r0.len() implies match (#[trigger] r0[i]).1 {
        TaskState::Pending(id2) => (v1.running.contains(id2) && !v1.queued.contains(r0[i].0)) || (
        !v1.running.contains(id2) && v1.queued.contains(r0[i].0)),
        _ => !v1.queued.contains(r0[i].0),
    } by {
        if i == j0 {
            assert(!v1.running.contains(id));
            assert(v1.queued.contains(k));
        } else {
            assert(r0[i].0 != k);
            match r0[i].1 {
                TaskState::Pending(id2) => {
                    assert(r0[i].1 != r0[j0].1);
                    assert(id2 != id);
                },
                _ => {},
            }
        }
    }
    assert forall|ri: int| 0 <= ri < v1.running.len() implies exists|j: int|
        0 <= j < r0.len() && (#[trigger] r0[j]).1 == TaskState::Pending(
            #[trigger] v1.running[ri],
        ) by {
        assert(v1.running.contains(v1.running[ri]));
        assert(v0.running.contains(v1.running[ri]));
        let p0 = choose|p0: int| 0 <= p0 < v0.running.len() && v0.running[p0] == v1.running[ri];
        assert(exists|j: int|
            0 <= j < r0.len() && (#[trigger] r0[j]).1 == TaskState::Pending(v0.running[p0]));
    }
    assert forall|qi: int| 0 <= qi < v1.queued.len() implies #[trigger] queued_entry_backed(
        v1,
        qi,
    ) by {
        if qi < v0.queued.len() {
            assert(v1.queued[qi] == v0.queued[qi]);
            assert(queued_entry_backed(v0, qi));
            let j = choose|j: int|
                0 <= j < r0.len() && (#[trigger] r0[j]).0 == v0.queued[qi] && r0[j].1 is Pending;
            assert(v1.registry[j].0 == v1.queued[qi] && v1.registry[j].1 is Pending);
        } else {
            assert(v1.queued[qi] == k);
            assert(v1.registry[j0].0 == k && v1.registry[j0].1 is Pending);
        }
        assert(queued_entry_backed(v1, qi));
    }
    assert(registry_keys_distinct(v1));
    assert(running_distinct(v1));
    assert(queued_distinct(v1));
    assert(obligations_ok(v1));
    assert(running_backed(v1));
    assert(queued_backed(v1));
    assert(pending_ids_distinct(v1));
}

/// Expiring a queued result preserves the scheduling invariant.
#[verifier::rlimit(100)]
#[verifier::spinoff_prover]
proof fn lemma_expire_wf(
    v0: ManagerSpec,
    v1: ManagerSpec,
    k: Seq<char>,
    st: TaskState,
    ui: int,
    qidx: int,
)
    requires
        manager_wf(v0),
        0 <= qidx < v0.queued.len(),
        v0.queued[qidx] == k,
        0 <= ui < v0.registry.len(),
        v0.registry[ui].0 == k,
        !is_pending(st),
        v1.registry == v0.registry.update(ui, (k, st)),
        v1.running == v0.running,
        v1.queued == v0.queued.remove(qidx),
    ensures
        manager_wf(v1),
        !v1.queued.contains(k),
        forall|x: Seq<char>| x != k ==> (v1.queued.contains(x) <==> v0.queued.contains(x)),
{
    let r0 = v0.registry;
    let r1 = v1.registry;
    assert(v0.queued.contains(k));
    let jq = choose|j: int|
        0 <= j < r0.len() && (#[trigger] r0[j]).0 == k && r0[j].1 is Pending;
    assert(jq == ui);
    assert(r0[ui].1 is Pending);
    assert forall|x: Seq<char>| #[trigger] v1.queued.contains(x) <==> (v0.queued.contains(x) && x
        != k) by {
        lemma_remove_contains(v0.queued, qidx, x);
    }
    v0.queued.remove_ensures(qidx);
    assert forall|p: int, q: int|
        0 <= p < v1.queued.len() && 0 <= q < v1.queued.len() && p != q implies (
    #[trigger] v1.queued[p]) != (#[trigger] v1.queued[q]) by {
        let p0: int = if p < qidx {
            p
        } else {
            p + 1
        };
        let q0: int = if q < qidx {
            q
        } else {
            q + 1
        };
        assert(v1.queued[p] == v0.queued[p0]);
        assert(v1.queued[q] == v0.queued[q0]);
    }
    assert forall|i: int|
        0 <= i < r1.len() implies match (#[trigger] r1[i]).1 {
        TaskState::Pending(id2) => (v1.running.contains(id2) && !v1.queued.contains(r1[i].0)) || (
        !v1.running.contains(id2) && v1.queued.contains(r1[i].0)),
        _ => !v1.queued.contains(r1[i].0),
    } by {
        if i == ui {
            assert(!v1.queued.contains(k));
        } else {
            assert(r1[i] == r0[i]);
            assert(r0[i].0 != k);
        }
    }
    assert forall|ri: int| 0 <= ri < v1.running.len() implies exists|j: int|
        0 <= j < r1.len() && (#[trigger] r1[j]).1 == TaskState::Pending(
            #[trigger] v1.running[ri],
        ) by {
        let j = choose|j: int|
            0 <= j < r0.len() && (#[trigger] r0[j]).1 == TaskState::Pending(v0.running[ri]);
        assert(j != ui) by {
            if j == ui {
                match r0[ui].1 {
                    TaskState::Pending(id0) => {
                        assert(!v0.running.contains(id0));
                        assert(v0.running.contains(v0.running[ri]));
                    },
                    _ => {},
                }
            }
        }
        assert(r1[j].1 == TaskState::Pending(v1.running[ri]));
    }
    assert(queued_backed(v1)) by {
        assert forall|x: Seq<char>| #[trigger] v1.queued.contains(x) implies v0.queued.contains(x)
            && x != k by {
            lemma_remove_contains(v0.queued, qidx, x);
        }
        lemma_queued_backed_after_update(v0, v1, ui, k, st);
    }
    assert forall|p: int, q: int|
        0 <= p < r1.len() && 0 <= q < r1.len() && p != q implies (#[trigger] r1[p]).0 != (
    #[trigger] r1[q]).0 by {
        assert(r1[p].0 == r0[p].0);
        assert(r1[q].0 == r0[q].0);
    }
    assert forall|p: int, q: int|
        0 <= p < r1.len() && 0 <= q < r1.len() && p != q && (#[trigger] r1[p]).1 is Pending && (
        #[trigger] r1[q]).1 is Pending implies r1[p].1 != r1[q].1 by {
        assert(p != ui && q != ui);
        assert(r1[p] == r0[p] && r1[q] == r0[q]);
    }
    lemma_count_update(r0, ui, (k, st));
    assert(registry_keys_distinct(v1));
    assert(running_distinct(v1));
    assert(queued_distinct(v1));
    assert(obligations_ok(v1));
    assert(running_backed(v1));
    assert(queued_backed(v1));
    assert(pending_ids_distinct(v1));
}

/// Aborting a worker preserves the scheduling invariant.
#[verifier::rlimit(100)]
#[verifier::spinoff_prover]
proof fn lemma_abort_wf(
    v0: ManagerSpec,
    v1: ManagerSpec,
    k: Seq<char>,
    st: TaskState,
    id: u64,
    ui: int,
    ridx: int,
)
    requires
        manager_wf(v0),
        0 <= ui < v0.registry.len(),
        v0.registry[ui] == (k, TaskState::Pending(id)),
        0 <= ridx < v0.running.len(),
        v0.running[ridx] == id,
        !is_pending(st),
        v1.registry == v0.registry.update(ui, (k, st)),
        v1.running == v0.running.remove(ridx),
        v1.queued == v0.queued,
    ensures
        manager_wf(v1),
        !v1.running.contains(id),
        forall|x: u64| x != id ==> (v1.running.contains(x) <==> v0.running.contains(x)),
{
    let r0 = v0.registry;
    let r1 = v1.registry;
    assert(v0.running.contains(id));
    assert(!v0.queued.contains(k));
    assert forall|x: u64| #[trigger] v1.running.contains(x) <==> (v0.running.contains(x) && x
        != id) by {
        lemma_remove_contains(v0.running, ridx, x);
    }
    v0.running.remove_ensures(ridx);
    assert forall|p: int, q: int|
        0 <= p < v1.running.len() && 0 <= q < v1.running.len() && p != q implies (
    #[trigger] v1.running[p]) != (#[trigger] v1.running[q]) by {
        let p0: int = if p < ridx {
            p
        } else {
            p + 1
        };
        let q0: int = if q < ridx {
            q
        } else {
            q + 1
        };
        assert(v1.running[p] == v0.running[p0]);
        assert(v1.running[q] == v0.running[q0]);
    }
    assert forall|i: int|
        0 <= i < r1.len() implies match (#[trigger] r1[i]).1 {
        TaskState::Pending(id2) => (v1.running.contains(id2) && !v1.queued.contains(r1[i].0)) || (
        !v1.running.contains(id2) && v1.queued.contains(r1[i].0)),
        _ => !v1.queued.contains(r1[i].0),
    } by {
        if i == ui {
            assert(!v1.queued.contains(k));
        } else {
            assert(r1[i] == r0[i]);
            match r0[i].1 {
                TaskState::Pending(id2) => {
                    assert(r0[i].1 != r0[ui].1);
                    assert(id2 != id);
                },
                _ => {},
            }
        }
    }
    assert forall|ri: int| 0 <= ri < v1.running.len() implies exists|j: int|
        0 <= j < r1.len() && (#[trigger] r1[j]).1 == TaskState::Pending(
            #[trigger] v1.running[ri],
        ) by {
        assert(v1.running.contains(v1.running[ri]));
        assert(v0.running.contains(v1.running[ri]) && v1.running[ri] != id);
        let p0 = choose|p0: int| 0 <= p0 < v0.running.len() && v0.running[p0] == v1.running[ri];
        let j = choose|j: int|
            0 <= j < r0.len() && (#[trigger] r0[j]).1 == TaskState::Pending(v0.running[p0]);
        assert(j != ui);
        assert(r1[j].1 == TaskState::Pending(v1.running[ri]));
    }
    assert(queued_backed(v1)) by {
        assert forall|x: Seq<char>| #[trigger] v1.queued.contains(x) implies v0.queued.contains(x)
            && x != k by {
            assert(!v0.queued.contains(k));
        }
        lemma_queued_backed_after_update(v0, v1, ui, k, st);
    }
    assert forall|p: int, q: int|
        0 <= p < r1.len() && 0 <= q < r1.len() && p != q implies (#[trigger] r1[p]).0 != (
    #[trigger] r1[q]).0 by {
        assert(r1[p].0 == r0[p].0);
        assert(r1[q].0 == r0[q].0);
    }
    assert forall|p: int, q: int|
        0 <= p < r1.len() && 0 <= q < r1.len() && p != q && (#[trigger] r1[p]).1 is Pending && (
        #[trigger] r1[q]).1 is Pending implies r1[p].1 != r1[q].1 by {
        assert(p != ui && q != ui);
        assert(r1[p] == r0[p] && r1[q] == r0[q]);
    }
    lemma_count_update(r0, ui, (k, st));
    assert(registry_keys_distinct(v1));
    assert(running_distinct(v1));
    assert(queued_distinct(v1));
    assert(obligations_ok(v1));
    assert(running_backed(v1));
    assert(queued_backed(v1));
    assert(pending_ids_distinct(v1));
}

} // verus!
