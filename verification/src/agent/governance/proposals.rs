//! The proposal agents: one fetches proposals of every status from each
//! blockchain page by page; one rebuilds the rendered proposal views when
//! anything they depend on changes.

use vstd::prelude::*;
use vstd::string::StringExecFns;
use vstd::string::StrSliceExecFns;
use crate::interface::{Agent, contains_view, views_of, spec_delay_lookup, delays_view};
use crate::agent::governance::ProposalStatus;
use crate::codec::{spec_dec, u64_to_dec};

verus! {

/// The agent's configuration and backoff state.
pub struct GovernanceProposalFetchAgent {
    pub continue_at_key_prefix: String,
    pub known_blockchains: Vec<String>,
    pub update_interval_in_secs: i64,
    pub retry_delay_in_secs: Vec<(GovernanceProposalFetchTask, i64)>,
    initial_retry_delay: i64,
}

/// One fetch: a blockchain and the proposal status it targets.
#[derive(Debug, Hash)]
pub struct GovernanceProposalFetchTask {
    pub blockchain_name: String,
    pub proposal_status: ProposalStatus,
}

/// The mathematical value of a [`GovernanceProposalFetchTask`].
pub struct GovernanceProposalFetchTaskSpec {
    pub blockchain_name: Seq<char>,
    pub proposal_status: ProposalStatus,
}

impl View for GovernanceProposalFetchTask {
    type V = GovernanceProposalFetchTaskSpec;

    open spec fn view(&self) -> GovernanceProposalFetchTaskSpec {
        GovernanceProposalFetchTaskSpec { blockchain_name: self.blockchain_name@, proposal_status: self.proposal_status }
    }
}

impl Clone for GovernanceProposalFetchTask {
    fn clone(&self) -> (r: GovernanceProposalFetchTask)
        ensures
            r@ == self@,
    {
        GovernanceProposalFetchTask {
            blockchain_name: self.blockchain_name.clone(),
            proposal_status: self.proposal_status,
        }
    }
}

impl GovernanceProposalFetchTask {
    /// Whether this instance names the same task as `other`.
    pub fn matches_task(&self, other: &GovernanceProposalFetchTask) -> (r: bool)
        ensures
            r == (self@ == other@),
    {
        let r = self.blockchain_name == other.blockchain_name && self.proposal_status
            == other.proposal_status;
        proof {
            assert(r ==> self@ == other@);
            assert(!r ==> self@ != other@);
        }
        r
    }
}

/// Whether a task equal to `t` stands in `pending`.
fn task_pending_contains(pending: &Vec<GovernanceProposalFetchTask>, t: &GovernanceProposalFetchTask) -> (r: bool)
    ensures
        r == contains_view(views_of(*pending), t@),
{
    let mut i: usize = 0;
    while i < pending.len()
        invariant
            0 <= i <= pending@.len(),
            forall|j: int| 0 <= j < i ==> views_of(*pending)[j] != t@,
        decreases pending@.len() - i,
    {
        if pending[i].matches_task(t) {
            proof {
                assert(views_of(*pending)[i as int] == t@);
            }
            return true;
        }
        i += 1;
    }
    false
}

impl Default for GovernanceProposalFetchAgent {
    /// Refreshes every five minutes, retrying after a minute, for every
    /// proposal status.
    fn default() -> (r: GovernanceProposalFetchAgent)
        ensures
            r.spec_update_interval() == 300,
            r.spec_initial_retry_delay() == 60,
            forall|t: GovernanceProposalFetchTaskSpec| #[trigger] r.spec_retry_delay(t) == 60,
    {
        let r = GovernanceProposalFetchAgent {
            continue_at_key_prefix: "fetch_proposals_for".to_owned(),
            known_blockchains: Vec::new(),
            update_interval_in_secs: 300,
            retry_delay_in_secs: Vec::new(),
            initial_retry_delay: 60,
        };
        proof {
            assert(delays_view(r.retry_delay_in_secs@) =~= Seq::<(GovernanceProposalFetchTaskSpec, i64)>::empty());
        }
        r
    }
}

impl Agent for GovernanceProposalFetchAgent {
    type TaskType = GovernanceProposalFetchTask;

    closed spec fn spec_retry_delay(&self, task: <GovernanceProposalFetchTask as View>::V) -> i64 {
        spec_delay_lookup(delays_view(self.retry_delay_in_secs@), task, self.initial_retry_delay)
    }

    closed spec fn spec_initial_retry_delay(&self) -> i64 {
        self.initial_retry_delay
    }

    closed spec fn spec_update_interval(&self) -> i64 {
        self.update_interval_in_secs
    }

    fn get_tasks(&self, tasks_pending: &Vec<GovernanceProposalFetchTask>) -> (r: Vec<GovernanceProposalFetchTask>) {
        let mut fns: Vec<GovernanceProposalFetchTask> = Vec::new();
        let statuses = ProposalStatus::all();
        let mut b: usize = 0;
        while b < self.known_blockchains.len()
            invariant
                forall|j: int|
                    0 <= j < fns@.len() ==> !contains_view(
                        views_of(*tasks_pending),
                        (#[trigger] fns@[j])@,
                    ),
            decreases self.known_blockchains@.len() - b,
        {
            let mut p: usize = 0;
            while p < statuses.len()
                invariant
                    b < self.known_blockchains@.len(),
                    forall|j: int|
                        0 <= j < fns@.len() ==> !contains_view(
                            views_of(*tasks_pending),
                            (#[trigger] fns@[j])@,
                        ),
                decreases statuses@.len() - p,
            {
                let task = GovernanceProposalFetchTask {
                    blockchain_name: self.known_blockchains[b].clone(),
                    proposal_status: statuses[p],
                };
                if !task_pending_contains(tasks_pending, &task) {
                    fns.push(task);
                }
                p += 1;
            }
            b += 1;
        }
        fns
    }
    fn get_update_interval_in_secs(&self, _task_type: &GovernanceProposalFetchTask) -> (r: i64) {
        self.update_interval_in_secs
    }

    fn get_retry_delay_in_secs(&self, task_type: &GovernanceProposalFetchTask) -> (r: i64) {
        let list = &self.retry_delay_in_secs;
        let mut i: usize = list.len();
        proof {
            assert(delays_view(list@).take(i as int) =~= delays_view(list@));
        }
        while i > 0
            invariant
                i <= list@.len(),
                list@ == self.retry_delay_in_secs@,
                delays_view(list@).len() == list@.len(),
                spec_delay_lookup(delays_view(list@), task_type@, self.initial_retry_delay)
                    == spec_delay_lookup(
                    delays_view(list@).take(i as int),
                    task_type@,
                    self.initial_retry_delay,
                ),
            decreases i,
        {
            i -= 1;
            proof {
                assert(delays_view(list@).take(i as int + 1).last() == delays_view(list@)[i as int]);
                assert(delays_view(list@).take(i as int + 1).drop_last() =~= delays_view(
                    list@,
                ).take(i as int));
                assert(delays_view(list@)[i as int] == (list@[i as int].0@, list@[i as int].1));
            }
            if list[i].0.matches_task(task_type) {
                proof {
                    assert(spec_delay_lookup(
                        delays_view(list@).take(i as int + 1),
                        task_type@,
                        self.initial_retry_delay,
                    ) == delays_view(list@)[i as int].1);
                }
                return list[i].1;
            }
        }
        proof {
            assert(delays_view(list@).take(0) =~= Seq::<(<GovernanceProposalFetchTask as View>::V, i64)>::empty());
        }
        self.initial_retry_delay
    }

    fn set_retry_delay_in_secs(&mut self, task_type: &GovernanceProposalFetchTask, retry_delay: i64) {
        self.retry_delay_in_secs.push((task_type.clone(), retry_delay));
        proof {
            let l = delays_view(self.retry_delay_in_secs@);
            assert(l =~= delays_view(old(self).retry_delay_in_secs@).push(
                (task_type@, retry_delay),
            ));
            assert(l.last() == (task_type@, retry_delay));
            assert(l.drop_last() =~= delays_view(old(self).retry_delay_in_secs@));
        }
    }

    fn reset_retry_delay(&mut self, task_type: &GovernanceProposalFetchTask) {
        let baseline = self.initial_retry_delay;
        self.retry_delay_in_secs.push((task_type.clone(), baseline));
        proof {
            let l = delays_view(self.retry_delay_in_secs@);
            assert(l =~= delays_view(old(self).retry_delay_in_secs@).push((task_type@, baseline)));
            assert(l.last() == (task_type@, baseline));
            assert(l.drop_last() =~= delays_view(old(self).retry_delay_in_secs@));
        }
    }
}

/// The key a proposal is stored under.
pub fn get_proposal_entry_key(blockchain_name: &str, proposal_id: u64) -> (r: String)
    ensures
        r@ == "governance_"@ + "proposal_"@ + blockchain_name@ + "_"@ + spec_dec(proposal_id),
{
    let mut s = "governance_".to_owned();
    s.append("proposal_");
    s.append(blockchain_name);
    s.append("_");
    let id = u64_to_dec(proposal_id);
    s.append(id.as_str());
    s
}


/// A rendered governance proposal: every string the page template shows,
/// already formatted. The caller supplies the proposal-specific values; the
/// fixed page labels are filled in here.
#[derive(Debug)]
pub struct GovernanceProposalView {
    pub proposal_id: String,
    pub proposal_blockchain_name: String,
    pub proposal_blockchain: String,
    pub proposal_type: String,
    pub proposal_title: String,
    pub proposal_description: String,
    pub proposal_link: String,
    pub proposal_status_icon: String,
    pub proposal_deposit_param: String,
    pub proposal_voting_param: String,
    pub proposal_tallying_param: String,
    pub proposal_tally_result: Option<String>,
    pub proposal_tally_result_detail: Option<String>,
    pub proposal_voter_turnout: Option<String>,
    pub proposal_blockchain_pool_details: Option<String>,
    pub proposal_state: String,
    pub proposal_state_detail: Option<String>,
    pub last_updated: String,
    pub proposal_submitted: String,
    pub js_const_fraud_risk: String,
    pub js_const_spam_likelihood: String,
    pub js_const_in_deposit_period: String,
    pub website_language_label: String,
    pub website_show_more_button: String,
    pub website_open_in_button: String,
    pub website_deposit_param_label: String,
    pub website_voting_param_label: String,
    pub website_tallying_param_label: String,
    pub website_footer: String,
    pub js_const_fraud_warning: String,
    pub js_const_fraud_alert: String,
    pub js_const_high_veto_alert: String,
    pub js_const_deposit_period_warning: String,
}

impl GovernanceProposalView {
    /// Builds a view from the formatted proposal-specific values, filling in
    /// the page's fixed labels.
    pub fn new(
        proposal_id: String,
        proposal_blockchain_name: String,
        proposal_blockchain: String,
        proposal_type: String,
        proposal_title: String,
        proposal_description: String,
        proposal_link: String,
        proposal_status_icon: String,
        proposal_deposit_param: String,
        proposal_voting_param: String,
        proposal_tallying_param: String,
        proposal_tally_result: Option<String>,
        proposal_tally_result_detail: Option<String>,
        proposal_voter_turnout: Option<String>,
        proposal_blockchain_pool_details: Option<String>,
        proposal_state: String,
        proposal_state_detail: Option<String>,
        last_updated: String,
        proposal_submitted: String,
        js_const_fraud_risk: String,
        js_const_spam_likelihood: String,
        js_const_in_deposit_period: String,
    ) -> (r: GovernanceProposalView)
        ensures
            r.proposal_id == proposal_id,
            r.proposal_blockchain_name == proposal_blockchain_name,
            r.proposal_blockchain == proposal_blockchain,
            r.proposal_type == proposal_type,
            r.proposal_title == proposal_title,
            r.proposal_description == proposal_description,
            r.proposal_link == proposal_link,
            r.proposal_status_icon == proposal_status_icon,
            r.proposal_deposit_param == proposal_deposit_param,
            r.proposal_voting_param == proposal_voting_param,
            r.proposal_tallying_param == proposal_tallying_param,
            r.proposal_tally_result == proposal_tally_result,
            r.proposal_tally_result_detail == proposal_tally_result_detail,
            r.proposal_voter_turnout == proposal_voter_turnout,
            r.proposal_blockchain_pool_details == proposal_blockchain_pool_details,
            r.proposal_state == proposal_state,
            r.proposal_state_detail == proposal_state_detail,
            r.last_updated == last_updated,
            r.proposal_submitted == proposal_submitted,
            r.js_const_fraud_risk == js_const_fraud_risk,
            r.js_const_spam_likelihood == js_const_spam_likelihood,
            r.js_const_in_deposit_period == js_const_in_deposit_period,
            r.website_language_label@ == "Language:"@,
            r.website_show_more_button@ == "Show More"@,
            r.website_open_in_button@ == "Open in"@,
            r.website_deposit_param_label@ == "Deposit Parameters"@,
            r.website_voting_param_label@ == "Voting Parameters"@,
            r.website_tallying_param_label@ == "Tallying Parameters"@,
            r.website_footer@ == "Rendered by the governance proposal view agent."@,
            r.js_const_fraud_warning@ == "WARNING: Moderate fraud risk. Stay safe!"@,
            r.js_const_fraud_alert@ == "ALERT: High fraud risk. Remember, if it seems too good to be true, it probably is."@,
            r.js_const_high_veto_alert@ == "ALERT: High fraud risk. High percentage of NoWithVeto votes!"@,
            r.js_const_deposit_period_warning@ == "CAUTION: Fraud risk during deposit period."@,
    {
        proof {
            reveal_strlit("Language:");
            reveal_strlit("Show More");
            reveal_strlit("Open in");
            reveal_strlit("Deposit Parameters");
            reveal_strlit("Voting Parameters");
            reveal_strlit("Tallying Parameters");
            reveal_strlit("Rendered by the governance proposal view agent.");
            reveal_strlit("WARNING: Moderate fraud risk. Stay safe!");
            reveal_strlit("ALERT: High fraud risk. Remember, if it seems too good to be true, it probably is.");
            reveal_strlit("ALERT: High fraud risk. High percentage of NoWithVeto votes!");
            reveal_strlit("CAUTION: Fraud risk during deposit period.");
        }
        GovernanceProposalView {
            proposal_id,
            proposal_blockchain_name,
            proposal_blockchain,
            proposal_type,
            proposal_title,
            proposal_description,
            proposal_link,
            proposal_status_icon,
            proposal_deposit_param,
            proposal_voting_param,
            proposal_tallying_param,
            proposal_tally_result,
            proposal_tally_result_detail,
            proposal_voter_turnout,
            proposal_blockchain_pool_details,
            proposal_state,
            proposal_state_detail,
            last_updated,
            proposal_submitted,
            js_const_fraud_risk,
            js_const_spam_likelihood,
            js_const_in_deposit_period,
            website_language_label: "Language:".to_owned(),
            website_show_more_button: "Show More".to_owned(),
            website_open_in_button: "Open in".to_owned(),
            website_deposit_param_label: "Deposit Parameters".to_owned(),
            website_voting_param_label: "Voting Parameters".to_owned(),
            website_tallying_param_label: "Tallying Parameters".to_owned(),
            website_footer: "Rendered by the governance proposal view agent.".to_owned(),
            js_const_fraud_warning: "WARNING: Moderate fraud risk. Stay safe!".to_owned(),
            js_const_fraud_alert: "ALERT: High fraud risk. Remember, if it seems too good to be true, it probably is.".to_owned(),
            js_const_high_veto_alert: "ALERT: High fraud risk. High percentage of NoWithVeto votes!".to_owned(),
            js_const_deposit_period_warning: "CAUTION: Fraud risk during deposit period.".to_owned(),
        }
    }
}

/// The key a proposal's rendered view is stored under: the proposal's own
/// key, so a view write overwrites nothing but the previous view.
pub fn get_proposal_view_entry_key(proposal_view: &GovernanceProposalView) -> (r: String)
    ensures
        r@ == "governance_"@ + "proposal_"@ + proposal_view.proposal_blockchain_name@ + "_"@
            + proposal_view.proposal_id@,
{
    let mut s = "governance_".to_owned();
    s.append("proposal_");
    s.append(proposal_view.proposal_blockchain_name.as_str());
    s.append("_");
    s.append(proposal_view.proposal_id.as_str());
    s
}

/// The stored things a governance change event can concern, in the order the
/// view agent tests for them.
#[derive(Debug, Clone, Copy, PartialEq, Eq, Structural)]
pub enum GovernanceEventKind {
    Proposal,
    FraudClassification,
    TallyResult,
    Params,
    Validator,
    Pool,
}

/// Whether `needle` occurs as a contiguous part of `hay`.
pub open spec fn spec_text_contains(hay: Seq<char>, needle: Seq<char>) -> bool {
    exists|i: int|
        0 <= i && i + needle.len() <= hay.len() && #[trigger] hay.subrange(i, i + needle.len())
            == needle
}

/// Checks whether `needle` occurs as a contiguous part of `hay`.
pub fn text_contains(hay: &str, needle: &str) -> (r: bool)
    ensures
        r == spec_text_contains(hay@, needle@),
{
    let n = hay.unicode_len();
    let m = needle.unicode_len();
    if m > n {
        proof {
            assert(!spec_text_contains(hay@, needle@));
        }
        return false;
    }
    let mut i: usize = 0;
    while i <= n - m
        invariant
            m <= n,
            n == hay@.len(),
            m == needle@.len(),
            0 <= i <= n - m + 1,
            forall|p: int|
                0 <= p < i ==> #[trigger] hay@.subrange(p, p + needle@.len()) != needle@,
        decreases n - m + 1 - i,
    {
        let mut j: usize = 0;
        let mut matched = true;
        while j < m
            invariant
                m <= n,
                n == hay@.len(),
                m == needle@.len(),
                i <= n - m,
                0 <= j <= m,
                matched == (hay@.subrange(i as int, i + j) =~= needle@.subrange(0, j as int)),
            decreases m - j,
        {
            if hay.get_char(i + j) != needle.get_char(j) {
                matched = false;
                proof {
                    assert(hay@.subrange(i as int, i + j + 1)[j as int] != needle@.subrange(
                        0,
                        j as int + 1,
                    )[j as int]);
                }
                j = m;
            } else {
                proof {
                    assert(hay@.subrange(i as int, i + j + 1) =~= hay@.subrange(
                        i as int,
                        i + j,
                    ).push(hay@[i + j]));
                    assert(needle@.subrange(0, j as int + 1) =~= needle@.subrange(0, j as int).push(
                        needle@[j as int],
                    ));
                }
                j = j + 1;
            }
        }
        if matched {
            proof {
                assert(hay@.subrange(i as int, i + m) == needle@.subrange(0, m as int));
                assert(needle@.subrange(0, m as int) =~= needle@);
            }
            return true;
        }
        proof {
            assert(hay@.subrange(i as int, i + needle@.len()) != needle@);
        }
        i = i + 1;
    }
    proof {
        assert(!spec_text_contains(hay@, needle@));
    }
    false
}

/// What a change event's key says the view agent must refresh: the first of
/// the governance prefixes the key mentions, or nothing.
pub open spec fn spec_classify_governance_event(key: Seq<char>) -> Option<GovernanceEventKind> {
    if spec_text_contains(key, "proposal_"@) {
        Some(GovernanceEventKind::Proposal)
    } else if spec_text_contains(key, "fraud_detection_"@) {
        Some(GovernanceEventKind::FraudClassification)
    } else if spec_text_contains(key, "tally_result_"@) {
        Some(GovernanceEventKind::TallyResult)
    } else if spec_text_contains(key, "params_"@) {
        Some(GovernanceEventKind::Params)
    } else if spec_text_contains(key, "validator_"@) {
        Some(GovernanceEventKind::Validator)
    } else if spec_text_contains(key, "pool_"@) {
        Some(GovernanceEventKind::Pool)
    } else {
        None
    }
}

/// Classifies a change event's key for the view agent.
pub fn classify_governance_event(key: &str) -> (r: Option<GovernanceEventKind>)
    ensures
        r == spec_classify_governance_event(key@),
{
    if text_contains(key, "proposal_") {
        Some(GovernanceEventKind::Proposal)
    } else if text_contains(key, "fraud_detection_") {
        Some(GovernanceEventKind::FraudClassification)
    } else if text_contains(key, "tally_result_") {
        Some(GovernanceEventKind::TallyResult)
    } else if text_contains(key, "params_") {
        Some(GovernanceEventKind::Params)
    } else if text_contains(key, "validator_") {
        Some(GovernanceEventKind::Validator)
    } else if text_contains(key, "pool_") {
        Some(GovernanceEventKind::Pool)
    } else {
        None
    }
}


/// The view agent's configuration and backoff state.
pub struct GovernanceProposalViewAgent {
    pub continue_at_key_prefix: String,
    pub rate_limit_delay_in_secs: u64,
    pub update_interval_in_secs: i64,
    pub retry_delay_in_secs: Vec<(GovernanceProposalViewTasks, i64)>,
    initial_retry_delay: i64,
}

/// The view agent's single task instance.
#[derive(Debug, Clone, Copy, PartialEq, Eq, Hash, Structural)]
pub enum GovernanceProposalViewTasks {
    Update,
}

impl View for GovernanceProposalViewTasks {
    type V = GovernanceProposalViewTasks;

    open spec fn view(&self) -> GovernanceProposalViewTasks {
        *self
    }
}

impl Default for GovernanceProposalViewAgent {
    /// A permanently running consumer: it re-runs immediately and never
    /// backs off.
    fn default() -> (r: GovernanceProposalViewAgent)
        ensures
            r.spec_update_interval() == 0,
            r.spec_initial_retry_delay() == 0,
            forall|t: GovernanceProposalViewTasks| #[trigger] r.spec_retry_delay(t) == 0,
    {
        let r = GovernanceProposalViewAgent {
            continue_at_key_prefix: "update_proposal_views_for".to_owned(),
            rate_limit_delay_in_secs: 10,
            update_interval_in_secs: 0,
            retry_delay_in_secs: Vec::new(),
            initial_retry_delay: 0,
        };
        proof {
            assert(delays_view(r.retry_delay_in_secs@) =~= Seq::<(GovernanceProposalViewTasks, i64)>::empty());
        }
        r
    }
}

/// Whether a task equal to `t` stands in `pending`.
fn view_task_pending_contains(pending: &Vec<GovernanceProposalViewTasks>, t: &GovernanceProposalViewTasks) -> (r: bool)
    ensures
        r == contains_view(views_of(*pending), t@),
{
    let mut i: usize = 0;
    while i < pending.len()
        invariant
            0 <= i <= pending@.len(),
            forall|j: int| 0 <= j < i ==> views_of(*pending)[j] != t@,
        decreases pending@.len() - i,
    {
        if pending[i] == *t {
            proof {
                assert(views_of(*pending)[i as int] == t@);
            }
            return true;
        }
        i += 1;
    }
    false
}

impl Agent for GovernanceProposalViewAgent {
    type TaskType = GovernanceProposalViewTasks;

    closed spec fn spec_retry_delay(&self, task: <GovernanceProposalViewTasks as View>::V) -> i64 {
        spec_delay_lookup(delays_view(self.retry_delay_in_secs@), task, self.initial_retry_delay)
    }

    closed spec fn spec_initial_retry_delay(&self) -> i64 {
        self.initial_retry_delay
    }

    closed spec fn spec_update_interval(&self) -> i64 {
        self.update_interval_in_secs
    }

    fn get_tasks(&self, tasks_pending: &Vec<GovernanceProposalViewTasks>) -> (r: Vec<GovernanceProposalViewTasks>) {
        let mut fns: Vec<GovernanceProposalViewTasks> = Vec::new();
        if !view_task_pending_contains(tasks_pending, &GovernanceProposalViewTasks::Update) {
            fns.push(GovernanceProposalViewTasks::Update);
        }
        fns
    }

    fn get_update_interval_in_secs(&self, _task_type: &GovernanceProposalViewTasks) -> (r: i64) {
        self.update_interval_in_secs
    }

    fn get_retry_delay_in_secs(&self, task_type: &GovernanceProposalViewTasks) -> (r: i64) {
        let list = &self.retry_delay_in_secs;
        let mut i: usize = list.len();
        proof {
            assert(delays_view(list@).take(i as int) =~= delays_view(list@));
        }
        while i > 0
            invariant
                i <= list@.len(),
                list@ == self.retry_delay_in_secs@,
                delays_view(list@).len() == list@.len(),
                spec_delay_lookup(delays_view(list@), task_type@, self.initial_retry_delay)
                    == spec_delay_lookup(
                    delays_view(list@).take(i as int),
                    task_type@,
                    self.initial_retry_delay,
                ),
            decreases i,
        {
            i -= 1;
            proof {
                assert(delays_view(list@).take(i as int + 1).last() == delays_view(list@)[i as int]);
                assert(delays_view(list@).take(i as int + 1).drop_last() =~= delays_view(
                    list@,
                ).take(i as int));
                assert(delays_view(list@)[i as int] == (list@[i as int].0@, list@[i as int].1));
            }
            if list[i].0 == *task_type {
                proof {
                    assert(spec_delay_lookup(
                        delays_view(list@).take(i as int + 1),
                        task_type@,
                        self.initial_retry_delay,
                    ) == delays_view(list@)[i as int].1);
                }
                return list[i].1;
            }
        }
        proof {
            assert(delays_view(list@).take(0) =~= Seq::<(<GovernanceProposalViewTasks as View>::V, i64)>::empty());
        }
        self.initial_retry_delay
    }

    fn set_retry_delay_in_secs(&mut self, task_type: &GovernanceProposalViewTasks, retry_delay: i64) {
        self.retry_delay_in_secs.push((*task_type, retry_delay));
        proof {
            let l = delays_view(self.retry_delay_in_secs@);
            assert(l =~= delays_view(old(self).retry_delay_in_secs@).push(
                (task_type@, retry_delay),
            ));
            assert(l.last() == (task_type@, retry_delay));
            assert(l.drop_last() =~= delays_view(old(self).retry_delay_in_secs@));
        }
    }

    fn reset_retry_delay(&mut self, task_type: &GovernanceProposalViewTasks) {
        let baseline = self.initial_retry_delay;
        self.retry_delay_in_secs.push((*task_type, baseline));
        proof {
            let l = delays_view(self.retry_delay_in_secs@);
            assert(l =~= delays_view(old(self).retry_delay_in_secs@).push((task_type@, baseline)));
            assert(l.last() == (task_type@, baseline));
            assert(l.drop_last() =~= delays_view(old(self).retry_delay_in_secs@));
        }
    }
}


} // verus!
