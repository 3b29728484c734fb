//! The governance agents and the key prefix their key spaces share.

use vstd::prelude::*;

pub mod params;
pub mod proposals;
pub mod tally_results;
pub mod validators;

verus! {

/// The prefix all governance agents keep their keys under.
pub const GOVERNANCE_PREFIX: &'static str = "governance_";

/// The lifecycle stage of a governance proposal. The blockchain reports it;
/// here only the tag matters.
#[derive(Debug, Clone, Copy, PartialEq, Eq, Hash, Structural)]
pub enum ProposalStatus {
    StatusNil,
    StatusDepositPeriod,
    StatusVotingPeriod,
    StatusPassed,
    StatusRejected,
    StatusFailed,
}

impl View for ProposalStatus {
    type V = ProposalStatus;

    open spec fn view(&self) -> ProposalStatus {
        *self
    }
}

/// The rendered name of a proposal status, as it appears inside checkpoint
/// keys.
pub open spec fn spec_status_text(s: ProposalStatus) -> Seq<char> {
    match s {
        ProposalStatus::StatusNil => "StatusNil"@,
        ProposalStatus::StatusDepositPeriod => "StatusDepositPeriod"@,
        ProposalStatus::StatusVotingPeriod => "StatusVotingPeriod"@,
        ProposalStatus::StatusPassed => "StatusPassed"@,
        ProposalStatus::StatusRejected => "StatusRejected"@,
        ProposalStatus::StatusFailed => "StatusFailed"@,
    }
}

impl ProposalStatus {
    /// Renders the status name.
    pub fn status_text(&self) -> (r: String)
        ensures
            r@ == spec_status_text(*self),
    {
        match self {
            ProposalStatus::StatusNil => "StatusNil".to_owned(),
            ProposalStatus::StatusDepositPeriod => "StatusDepositPeriod".to_owned(),
            ProposalStatus::StatusVotingPeriod => "StatusVotingPeriod".to_owned(),
            ProposalStatus::StatusPassed => "StatusPassed".to_owned(),
            ProposalStatus::StatusRejected => "StatusRejected".to_owned(),
            ProposalStatus::StatusFailed => "StatusFailed".to_owned(),
        }
    }

    /// Every status, in the order fetch tasks are enumerated.
    pub fn all() -> (r: Vec<ProposalStatus>)
        ensures
            r@ =~= seq![
                ProposalStatus::StatusNil,
                ProposalStatus::StatusDepositPeriod,
                ProposalStatus::StatusVotingPeriod,
                ProposalStatus::StatusPassed,
                ProposalStatus::StatusRejected,
                ProposalStatus::StatusFailed,
            ],
    {
        let mut r: Vec<ProposalStatus> = Vec::new();
        r.push(ProposalStatus::StatusNil);
        r.push(ProposalStatus::StatusDepositPeriod);
        r.push(ProposalStatus::StatusVotingPeriod);
        r.push(ProposalStatus::StatusPassed);
        r.push(ProposalStatus::StatusRejected);
        r.push(ProposalStatus::StatusFailed);
        r
    }
}

} // verus!
