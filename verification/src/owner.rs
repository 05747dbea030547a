//! The longer commands of the local owner, one answer at a time.
//!
//! Each command looks at what it is about before it asks for anything that is costly or
//! that is kept: a command that is refused has rebuilt nothing and recorded nothing.

use crate::admission::ProposalRecord;
use crate::commands;
use crate::commands::QuarantineAnswer;
use crate::lifecycle::{
    LifecycleStatus, ReplacementTransitionOutcome, RevisionState, TransitionOutcome,
};
use crate::operations;
use crate::operations::{
    ActivationDecision, ActivationModel, Containment, ContainmentModel, OperationError,
    OperationFault, OperatorReport, PromotionDecision, PromotionModel, QuarantineReason,
    ReportModel,
};
use crate::text;
use vstd::prelude::*;
use vstd::string::*;

verus! {

/// What an activation says where the index cannot be brought up to date.
pub const RECONCILE_ACTIVATION: &'static str = "failed to reconcile learned-skill index before activation";

/// What a promotion says where the index cannot be brought up to date.
pub const RECONCILE_PROMOTION: &'static str = "failed to reconcile the learned-skill index before promotion";

/// What a quarantine says where the index cannot be brought up to date.
pub const RECONCILE_QUARANTINE: &'static str = "failed to reconcile the learned-skill index before quarantine";

/// Why a command of the owner failed.
#[derive(Debug)]
pub enum OwnerFailure {
    /// It was refused, for the reason given.
    Refused(String),
    /// It could not be asked.
    Plan(OperationError),
    /// The store or a clock failed.
    Store(String),
    /// The index could not be brought up to date first.
    Reconcile { context: &'static str, error: String },
    /// What was asked for failed.
    Change { context: &'static str, error: String },
}

/// The contents of an [`OwnerFailure`].
#[verifier::ext_equal]
pub enum OwnerFault {
    Refused(Seq<char>),
    Plan(OperationFault),
    Store(Seq<char>),
    Reconcile { context: Seq<char>, error: Seq<char> },
    Change { context: Seq<char>, error: Seq<char> },
}

impl View for OwnerFailure {
    type V = OwnerFault;

    open spec fn view(&self) -> OwnerFault {
        match *self {
            OwnerFailure::Refused(s) => OwnerFault::Refused(s@),
            OwnerFailure::Plan(e) => OwnerFault::Plan(e@),
            OwnerFailure::Store(s) => OwnerFault::Store(s@),
            OwnerFailure::Reconcile { context, error } => {
                OwnerFault::Reconcile { context: context@, error: error@ }
            },
            OwnerFailure::Change { context, error } => {
                OwnerFault::Change { context: context@, error: error@ }
            },
        }
    }
}

impl OwnerFault {
    /// The sentence that reports the fault; none where the plan's own fault speaks.
    pub open spec fn sentence(self) -> Option<Seq<char>> {
        match self {
            OwnerFault::Refused(s) => Some(s),
            OwnerFault::Plan(_) => None,
            OwnerFault::Store(s) => Some(s),
            OwnerFault::Reconcile { context, error } => Some(context + ": "@ + error),
            OwnerFault::Change { context, error } => Some(context + ": "@ + error),
        }
    }
}

impl OwnerFailure {
    /// The sentence that reports the failure; none where the plan's own error speaks.
    pub fn message(&self) -> (r: Option<String>)
        ensures
            text::opt_view(r) == self@.sentence(),
    {
        match self {
            OwnerFailure::Refused(s) => Some(s.clone()),
            OwnerFailure::Plan(_) => None,
            OwnerFailure::Store(s) => Some(s.clone()),
            OwnerFailure::Reconcile { context, error } => {
                Some(text::join3(context, ": ", error))
            },
            OwnerFailure::Change { context, error } => Some(text::join3(context, ": ", error)),
        }
    }
}

/// Where an activation stands. Each stage names what is asked for next.
#[derive(Debug)]
pub enum ActivationStage {
    /// The proposal and the status of the skill are read.
    Target,
    /// The index is brought up to date.
    Reconcile,
    /// The proposal and the row version of the skill are read again.
    Observe,
    /// The policy of activations is registered.
    Register { report_id: String, row_version: u64 },
    /// The owner's second action is authorized.
    Authorize { report_id: String, row_version: u64 },
    /// The desired generation is read.
    Generation { report_id: String, row_version: u64 },
    /// The skill is activated and what readers see is published.
    Activate { report_id: String, row_version: u64, generation: u64 },
}

/// What was answered to a stage of an activation. Failures come as text.
pub enum ActivationEvent {
    /// The store or a clock could not be read.
    Unreadable(String),
    Target { proposal: Option<ProposalRecord>, status: Option<String> },
    Reconciled(Result<(), String>),
    Observed { proposal: Option<ProposalRecord>, row_version: Option<u64> },
    Registered(Result<(), String>),
    Authorized(Result<(), String>),
    Generation(u64),
    /// What the activation came to, and whether only removals are visible yet.
    Activated(Result<(TransitionOutcome, bool), String>),
}

/// What comes of an answer to an activation.
pub enum ActivationProgress {
    Next(ActivationStage),
    Report(OperatorReport),
    Failed(OwnerFailure),
}

/// The contents of an [`ActivationProgress`].
pub enum ActivationProgressModel {
    Next(ActivationStage),
    Report(ReportModel),
    Failed(OwnerFault),
}

impl View for ActivationProgress {
    type V = ActivationProgressModel;

    open spec fn view(&self) -> ActivationProgressModel {
        match *self {
            ActivationProgress::Next(stage) => ActivationProgressModel::Next(stage),
            ActivationProgress::Report(report) => ActivationProgressModel::Report(report@),
            ActivationProgress::Failed(e) => ActivationProgressModel::Failed(e@),
        }
    }
}

/// What a second look at the skill leads to.
pub open spec fn observed(proposal: Option<ProposalRecord>, row_version: Option<u64>) -> Result<
    ActivationStage,
    Seq<char>,
> {
    match proposal {
        None => Err("learned-skill proposal not found"@),
        Some(p) => match p.report_id {
            None => Err("learned-skill evaluation report is missing"@),
            Some(report_id) => match row_version {
                None => Err("learned-skill revision not found"@),
                Some(version) => if version > i64::MAX {
                    Err("learned-skill row version is out of range"@)
                } else {
                    Ok(ActivationStage::Register { report_id, row_version: version })
                },
            },
        },
    }
}

/// What an answer to an activation leads to.
pub open spec fn activation_step(
    skill_id: Seq<char>,
    stage: ActivationStage,
    event: ActivationEvent,
) -> ActivationProgressModel {
    match (stage, event) {
        (_, ActivationEvent::Unreadable(e)) => ActivationProgressModel::Failed(
            OwnerFault::Store(e@),
        ),
        (ActivationStage::Target, ActivationEvent::Target { proposal, status }) => {
            match operations::activation(skill_id, proposal, text::opt_view(status)) {
                ActivationModel::Refuse(s) => ActivationProgressModel::Failed(
                    OwnerFault::Refused(s),
                ),
                ActivationModel::Already => ActivationProgressModel::Report(
                    commands::activation_reported(skill_id, None),
                ),
                ActivationModel::Activate => ActivationProgressModel::Next(
                    ActivationStage::Reconcile,
                ),
            }
        },
        (ActivationStage::Reconcile, ActivationEvent::Reconciled(answer)) => match answer {
            Err(e) => ActivationProgressModel::Failed(
                OwnerFault::Reconcile { context: RECONCILE_ACTIVATION@, error: e@ },
            ),
            Ok(()) => ActivationProgressModel::Next(ActivationStage::Observe),
        },
        (ActivationStage::Observe, ActivationEvent::Observed { proposal, row_version }) => {
            match observed(proposal, row_version) {
                Err(s) => ActivationProgressModel::Failed(OwnerFault::Refused(s)),
                Ok(next) => ActivationProgressModel::Next(next),
            }
        },
        (
            ActivationStage::Register { report_id, row_version },
            ActivationEvent::Registered(answer),
        ) => match answer {
            Err(e) => ActivationProgressModel::Failed(OwnerFault::Store(e@)),
            Ok(()) => ActivationProgressModel::Next(
                ActivationStage::Authorize { report_id, row_version },
            ),
        },
        (
            ActivationStage::Authorize { report_id, row_version },
            ActivationEvent::Authorized(answer),
        ) => match answer {
            Err(e) => ActivationProgressModel::Failed(OwnerFault::Store(e@)),
            Ok(()) => ActivationProgressModel::Next(
                ActivationStage::Generation { report_id, row_version },
            ),
        },
        (
            ActivationStage::Generation { report_id, row_version },
            ActivationEvent::Generation(generation),
        ) => match operations::activation_fault(
            skill_id,
            Some(report_id),
            Some(row_version),
            generation,
        ) {
            Some(f) => ActivationProgressModel::Failed(OwnerFault::Plan(f)),
            None => ActivationProgressModel::Next(
                ActivationStage::Activate { report_id, row_version, generation },
            ),
        },
        (ActivationStage::Activate { .. }, ActivationEvent::Activated(answer)) => match answer {
            Err(e) => ActivationProgressModel::Failed(
                OwnerFault::Change { context: "learned-skill activation failed"@, error: e@ },
            ),
            Ok((outcome, removal_only)) => ActivationProgressModel::Report(
                commands::activation_reported(skill_id, Some((outcome, removal_only))),
            ),
        },
        (stage, _) => ActivationProgressModel::Next(stage),
    }
}

fn observe(proposal: Option<ProposalRecord>, row_version: Option<u64>) -> (r: Result<
    ActivationStage,
    String,
>)
    ensures
        match observed(proposal, row_version) {
            Ok(stage) => r is Ok && r->Ok_0 == stage,
            Err(s) => r is Err && r->Err_0@ == s,
        },
{
    match proposal {
        None => Err("learned-skill proposal not found".to_owned()),
        Some(p) => match p.report_id {
            None => Err("learned-skill evaluation report is missing".to_owned()),
            Some(report_id) => match row_version {
                None => Err("learned-skill revision not found".to_owned()),
                Some(version) => {
                    if version > i64::MAX as u64 {
                        Err("learned-skill row version is out of range".to_owned())
                    } else {
                        Ok(ActivationStage::Register { report_id, row_version: version })
                    }
                },
            },
        },
    }
}

/// Takes an activation one answer further. A mistyped or unfit target is refused before
/// the index is rebuilt for it. An answer to another stage is passed over.
pub fn activate(skill_id: &str, stage: ActivationStage, event: ActivationEvent) -> (r:
    ActivationProgress)
    ensures
        r@ == activation_step(skill_id@, stage, event),
{
    match (stage, event) {
        (_, ActivationEvent::Unreadable(e)) => ActivationProgress::Failed(OwnerFailure::Store(e)),
        (ActivationStage::Target, ActivationEvent::Target { proposal, status }) => {
            match operations::activate_skill(skill_id, &proposal, &status) {
                ActivationDecision::Refuse(s) => {
                    ActivationProgress::Failed(OwnerFailure::Refused(s))
                },
                ActivationDecision::Already => ActivationProgress::Report(
                    commands::activate_report(skill_id, None),
                ),
                ActivationDecision::Activate => {
                    ActivationProgress::Next(ActivationStage::Reconcile)
                },
            }
        },
        (ActivationStage::Reconcile, ActivationEvent::Reconciled(answer)) => match answer {
            Err(error) => ActivationProgress::Failed(
                OwnerFailure::Reconcile { context: RECONCILE_ACTIVATION, error },
            ),
            Ok(()) => ActivationProgress::Next(ActivationStage::Observe),
        },
        (ActivationStage::Observe, ActivationEvent::Observed { proposal, row_version }) => {
            match observe(proposal, row_version) {
                Err(s) => ActivationProgress::Failed(OwnerFailure::Refused(s)),
                Ok(next) => ActivationProgress::Next(next),
            }
        },
        (
            ActivationStage::Register { report_id, row_version },
            ActivationEvent::Registered(answer),
        ) => match answer {
            Err(e) => ActivationProgress::Failed(OwnerFailure::Store(e)),
            Ok(()) => ActivationProgress::Next(
                ActivationStage::Authorize { report_id, row_version },
            ),
        },
        (
            ActivationStage::Authorize { report_id, row_version },
            ActivationEvent::Authorized(answer),
        ) => match answer {
            Err(e) => ActivationProgress::Failed(OwnerFailure::Store(e)),
            Ok(()) => ActivationProgress::Next(
                ActivationStage::Generation { report_id, row_version },
            ),
        },
        (
            ActivationStage::Generation { report_id, row_version },
            ActivationEvent::Generation(generation),
        ) => {
            let report = Some(report_id);
            match operations::plan_activation(
                skill_id,
                &report,
                Some(row_version),
                generation,
            ) {
                Err(e) => ActivationProgress::Failed(OwnerFailure::Plan(e)),
                Ok(_) => match report {
                    Some(report_id) => ActivationProgress::Next(
                        ActivationStage::Activate { report_id, row_version, generation },
                    ),
                    None => ActivationProgress::Next(ActivationStage::Observe),
                },
            }
        },
        (ActivationStage::Activate { .. }, ActivationEvent::Activated(answer)) => match answer {
            Err(error) => ActivationProgress::Failed(
                OwnerFailure::Change { context: "learned-skill activation failed", error },
            ),
            Ok((outcome, removal_only)) => ActivationProgress::Report(
                commands::activate_report(skill_id, Some((&outcome, removal_only))),
            ),
        },
        (stage, _) => ActivationProgress::Next(stage),
    }
}

/// Where an activation stands after a history of answers. What has ended stays so.
pub open spec fn activation_run(skill_id: Seq<char>, events: Seq<ActivationEvent>) -> ActivationProgressModel
    decreases events.len(),
{
    if events.len() == 0 {
        ActivationProgressModel::Next(ActivationStage::Target)
    } else {
        match activation_run(skill_id, events.drop_last()) {
            ActivationProgressModel::Next(stage) => activation_step(
                skill_id,
                stage,
                events.last(),
            ),
            ended => ended,
        }
    }
}

/// The answer shows a skill that can be activated.
pub open spec fn fit_target(skill_id: Seq<char>, event: ActivationEvent) -> bool {
    event matches ActivationEvent::Target { proposal, status } && operations::activation(
        skill_id,
        proposal,
        text::opt_view(status),
    ) == ActivationModel::Activate
}

/// Nothing is rebuilt, registered, authorized or changed for an activation before its
/// target was found fit: an approved canary at the root of its lineage.
pub proof fn law_activations_look_at_their_target_first(
    skill_id: Seq<char>,
    events: Seq<ActivationEvent>,
)
    requires
        activation_run(skill_id, events) matches ActivationProgressModel::Next(stage)
            && !(stage is Target),
    ensures
        exists|i: int| 0 <= i < events.len() && fit_target(skill_id, #[trigger] events[i]),
    decreases events.len(),
{
    if events.len() > 0 {
        let init = events.drop_last();
        match activation_run(skill_id, init) {
            ActivationProgressModel::Next(before) => {
                if before is Target {
                    assert(fit_target(skill_id, events[events.len() - 1]));
                } else {
                    law_activations_look_at_their_target_first(skill_id, init);
                    let i = choose|i: int|
                        0 <= i < init.len() && fit_target(skill_id, #[trigger] init[i]);
                    assert(events[i] == init[i]);
                }
            },
            _ => {},
        }
    }
}

/// An unfit target ends an activation at once, and nothing that is answered later brings
/// it back: a refusal stands, and a skill that is active already is reported as such.
pub proof fn law_unfit_targets_end_an_activation(
    skill_id: Seq<char>,
    proposal: Option<ProposalRecord>,
    status: Option<String>,
    more: Seq<ActivationEvent>,
)
    requires
        operations::activation(skill_id, proposal, text::opt_view(status))
            != ActivationModel::Activate,
    ensures
        activation_run(
            skill_id,
            seq![ActivationEvent::Target { proposal, status }] + more,
        ) == match operations::activation(skill_id, proposal, text::opt_view(status)) {
            ActivationModel::Refuse(s) => ActivationProgressModel::Failed(OwnerFault::Refused(s)),
            _ => ActivationProgressModel::Report(commands::activation_reported(skill_id, None)),
        },
    decreases more.len(),
{
    let first = seq![ActivationEvent::Target { proposal, status }];
    let events = first + more;
    if more.len() == 0 {
        assert(events =~= first);
        assert(first.drop_last() =~= Seq::empty());
        assert(activation_run(skill_id, Seq::empty()) == ActivationProgressModel::Next(
            ActivationStage::Target,
        ));
    } else {
        law_unfit_targets_end_an_activation(skill_id, proposal, status, more.drop_last());
        assert(events.drop_last() =~= first + more.drop_last());
    }
}

/// What a promotion by the owner was found to be about.
#[derive(Debug)]
pub struct PromotionSubject {
    pub predecessor_id: String,
    pub report_id: Option<String>,
    pub candidate: RevisionState,
    pub predecessor: RevisionState,
    pub generation: u64,
}

impl PromotionSubject {
    /// Why the promotion cannot be asked.
    pub open spec fn fault(self, skill_id: Seq<char>) -> Option<OperationFault> {
        operations::promotion_fault(
            skill_id,
            self.predecessor_id@,
            self.report_id,
            self.candidate,
            self.predecessor,
            self.generation,
        )
    }

    /// The candidate is a canary that is bound to the predecessor.
    pub open spec fn bound(self) -> bool {
        self.candidate.status == LifecycleStatus::Canary && text::opt_view(
            self.candidate.supersedes_id,
        ) == Some(self.predecessor_id@)
    }
}

/// Where a promotion by the owner stands. Each stage names what is asked for next.
#[derive(Debug)]
pub enum PromotionStage {
    /// The index is brought up to date.
    Reconcile,
    /// The proposal of the replacement is read.
    Proposal,
    /// The replacement is read.
    Candidate { proposal: ProposalRecord },
    /// The predecessor and the desired generation are read.
    Predecessor { predecessor_id: String, report_id: Option<String>, candidate: RevisionState },
    /// The policy of such promotions is registered.
    Register { subject: PromotionSubject },
    /// What the owner did is recorded as evidence.
    Record { subject: PromotionSubject },
    /// The owner's second action is authorized.
    Authorize { subject: PromotionSubject },
    /// The replacement is promoted and what readers see is published.
    Promote { subject: PromotionSubject },
}

impl PromotionStage {
    /// What a stage that writes to the store is about.
    pub open spec fn written(self) -> Option<PromotionSubject> {
        match self {
            PromotionStage::Register { subject } => Some(subject),
            PromotionStage::Record { subject } => Some(subject),
            PromotionStage::Authorize { subject } => Some(subject),
            PromotionStage::Promote { subject } => Some(subject),
            _ => None,
        }
    }
}

/// What was answered to a stage of a promotion. Failures come as text.
pub enum PromotionEvent {
    /// The store or a clock could not be read.
    Unreadable(String),
    Reconciled(Result<(), String>),
    Proposal(Option<ProposalRecord>),
    Candidate(RevisionState),
    Predecessor { state: RevisionState, generation: u64 },
    Registered(Result<(), String>),
    Recorded(Result<(), String>),
    Authorized(Result<(), String>),
    /// What the promotion came to, and whether only removals are visible yet.
    Promoted(Result<(ReplacementTransitionOutcome, bool), String>),
}

/// What comes of an answer to a promotion.
pub enum PromotionProgress {
    Next(PromotionStage),
    Report(OperatorReport),
    Failed(OwnerFailure),
}

/// The contents of a [`PromotionProgress`].
pub enum PromotionProgressModel {
    Next(PromotionStage),
    Report(ReportModel),
    Failed(OwnerFault),
}

impl View for PromotionProgress {
    type V = PromotionProgressModel;

    open spec fn view(&self) -> PromotionProgressModel {
        match *self {
            PromotionProgress::Next(stage) => PromotionProgressModel::Next(stage),
            PromotionProgress::Report(report) => PromotionProgressModel::Report(report@),
            PromotionProgress::Failed(e) => PromotionProgressModel::Failed(e@),
        }
    }
}

/// What an answer that writes leads to.
pub open spec fn after_write(answer: Result<(), String>, next: PromotionStage) -> PromotionProgressModel {
    match answer {
        Err(e) => PromotionProgressModel::Failed(OwnerFault::Store(e@)),
        Ok(()) => PromotionProgressModel::Next(next),
    }
}

/// What an answer to a promotion leads to.
pub open spec fn promotion_step(
    skill_id: Seq<char>,
    stage: PromotionStage,
    event: PromotionEvent,
) -> PromotionProgressModel {
    match (stage, event) {
        (_, PromotionEvent::Unreadable(e)) => PromotionProgressModel::Failed(
            OwnerFault::Store(e@),
        ),
        (PromotionStage::Reconcile, PromotionEvent::Reconciled(answer)) => match answer {
            Err(e) => PromotionProgressModel::Failed(
                OwnerFault::Reconcile { context: RECONCILE_PROMOTION@, error: e@ },
            ),
            Ok(()) => PromotionProgressModel::Next(PromotionStage::Proposal),
        },
        (PromotionStage::Proposal, PromotionEvent::Proposal(found)) => {
            match operations::replaced_by(skill_id, found) {
                Err(s) => PromotionProgressModel::Failed(OwnerFault::Refused(s)),
                Ok(_) => PromotionProgressModel::Next(
                    PromotionStage::Candidate { proposal: found->0 },
                ),
            }
        },
        (PromotionStage::Candidate { proposal }, PromotionEvent::Candidate(candidate)) => {
            match operations::promotion(skill_id, Some(proposal), candidate) {
                PromotionModel::Refuse(s) => PromotionProgressModel::Failed(OwnerFault::Refused(s)),
                PromotionModel::Already { predecessor_id } => PromotionProgressModel::Report(
                    commands::promotion_reported(skill_id, predecessor_id, None),
                ),
                PromotionModel::Promote { .. } => PromotionProgressModel::Next(
                    PromotionStage::Predecessor {
                        predecessor_id: proposal.predecessor_id->0,
                        report_id: proposal.report_id,
                        candidate,
                    },
                ),
            }
        },
        (
            PromotionStage::Predecessor { predecessor_id, report_id, candidate },
            PromotionEvent::Predecessor { state, generation },
        ) => {
            let subject = PromotionSubject {
                predecessor_id,
                report_id,
                candidate,
                predecessor: state,
                generation,
            };
            match subject.fault(skill_id) {
                Some(f) => PromotionProgressModel::Failed(OwnerFault::Plan(f)),
                None => PromotionProgressModel::Next(PromotionStage::Register { subject }),
            }
        },
        (PromotionStage::Register { subject }, PromotionEvent::Registered(answer)) => after_write(
            answer,
            PromotionStage::Record { subject },
        ),
        (PromotionStage::Record { subject }, PromotionEvent::Recorded(answer)) => after_write(
            answer,
            PromotionStage::Authorize { subject },
        ),
        (PromotionStage::Authorize { subject }, PromotionEvent::Authorized(answer)) => after_write(
            answer,
            PromotionStage::Promote { subject },
        ),
        (PromotionStage::Promote { subject }, PromotionEvent::Promoted(answer)) => match answer {
            Err(e) => PromotionProgressModel::Failed(
                OwnerFault::Change {
                    context: "learned-skill replacement promotion failed"@,
                    error: e@,
                },
            ),
            Ok((outcome, removal_only)) => PromotionProgressModel::Report(
                commands::promotion_reported(
                    skill_id,
                    subject.predecessor_id@,
                    Some((outcome, removal_only)),
                ),
            ),
        },
        (stage, _) => PromotionProgressModel::Next(stage),
    }
}

fn proceed(answer: Result<(), String>, next: PromotionStage) -> (r: PromotionProgress)
    ensures
        r@ == after_write(answer, next),
{
    match answer {
        Err(e) => PromotionProgress::Failed(OwnerFailure::Store(e)),
        Ok(()) => PromotionProgress::Next(next),
    }
}

fn look_at_candidate(skill_id: &str, proposal: ProposalRecord, candidate: RevisionState) -> (r:
    PromotionProgress)
    ensures
        r@ == promotion_step(
            skill_id@,
            PromotionStage::Candidate { proposal },
            PromotionEvent::Candidate(candidate),
        ),
{
    let known = Some(proposal);
    match operations::check_candidate(skill_id, &known, &candidate) {
        PromotionDecision::Refuse(s) => PromotionProgress::Failed(OwnerFailure::Refused(s)),
        PromotionDecision::Already { predecessor_id } => PromotionProgress::Report(
            commands::promote_report(skill_id, &predecessor_id, None),
        ),
        PromotionDecision::Promote { predecessor_id } => match known {
            Some(proposal) => match proposal.predecessor_id {
                Some(predecessor_id) => PromotionProgress::Next(
                    PromotionStage::Predecessor {
                        predecessor_id,
                        report_id: proposal.report_id,
                        candidate,
                    },
                ),
                None => PromotionProgress::Next(PromotionStage::Proposal),
            },
            None => PromotionProgress::Next(PromotionStage::Proposal),
        },
    }
}

/// Takes a promotion by the owner one answer further: the replacement and its predecessor
/// are looked at before anything is recorded. An answer to another stage is passed over.
pub fn promote(skill_id: &str, stage: PromotionStage, event: PromotionEvent) -> (r:
    PromotionProgress)
    ensures
        r@ == promotion_step(skill_id@, stage, event),
{
    match (stage, event) {
        (_, PromotionEvent::Unreadable(e)) => PromotionProgress::Failed(OwnerFailure::Store(e)),
        (PromotionStage::Reconcile, PromotionEvent::Reconciled(answer)) => match answer {
            Err(error) => PromotionProgress::Failed(
                OwnerFailure::Reconcile { context: RECONCILE_PROMOTION, error },
            ),
            Ok(()) => PromotionProgress::Next(PromotionStage::Proposal),
        },
        (PromotionStage::Proposal, PromotionEvent::Proposal(found)) => {
            match operations::replaced_predecessor(skill_id, &found) {
                Err(s) => PromotionProgress::Failed(OwnerFailure::Refused(s)),
                Ok(_) => match found {
                    Some(proposal) => {
                        PromotionProgress::Next(PromotionStage::Candidate { proposal })
                    },
                    None => PromotionProgress::Next(PromotionStage::Proposal),
                },
            }
        },
        (PromotionStage::Candidate { proposal }, PromotionEvent::Candidate(candidate)) => {
            look_at_candidate(skill_id, proposal, candidate)
        },
        (
            PromotionStage::Predecessor { predecessor_id, report_id, candidate },
            PromotionEvent::Predecessor { state, generation },
        ) => {
            let subject = PromotionSubject {
                predecessor_id,
                report_id,
                candidate,
                predecessor: state,
                generation,
            };
            match operations::promote_replacement_skill(
                skill_id,
                &subject.predecessor_id,
                &subject.report_id,
                &subject.candidate,
                &subject.predecessor,
                generation,
            ) {
                Err(e) => PromotionProgress::Failed(OwnerFailure::Plan(e)),
                Ok(_) => PromotionProgress::Next(PromotionStage::Register { subject }),
            }
        },
        (PromotionStage::Register { subject }, PromotionEvent::Registered(answer)) => proceed(
            answer,
            PromotionStage::Record { subject },
        ),
        (PromotionStage::Record { subject }, PromotionEvent::Recorded(answer)) => proceed(
            answer,
            PromotionStage::Authorize { subject },
        ),
        (PromotionStage::Authorize { subject }, PromotionEvent::Authorized(answer)) => proceed(
            answer,
            PromotionStage::Promote { subject },
        ),
        (PromotionStage::Promote { subject }, PromotionEvent::Promoted(answer)) => match answer {
            Err(error) => PromotionProgress::Failed(
                OwnerFailure::Change {
                    context: "learned-skill replacement promotion failed",
                    error,
                },
            ),
            Ok((outcome, removal_only)) => PromotionProgress::Report(
                commands::promote_report(
                    skill_id,
                    &subject.predecessor_id,
                    Some((&outcome, removal_only)),
                ),
            ),
        },
        (stage, _) => PromotionProgress::Next(stage),
    }
}

/// Where a promotion stands after a history of answers. What has ended stays so.
pub open spec fn promotion_run(skill_id: Seq<char>, events: Seq<PromotionEvent>) -> PromotionProgressModel
    decreases events.len(),
{
    if events.len() == 0 {
        PromotionProgressModel::Next(PromotionStage::Reconcile)
    } else {
        match promotion_run(skill_id, events.drop_last()) {
            PromotionProgressModel::Next(stage) => promotion_step(
                skill_id,
                stage,
                events.last(),
            ),
            ended => ended,
        }
    }
}

/// Nothing is registered, recorded, authorized or changed for a promotion before the
/// replacement was found to be a canary that is bound to its predecessor, and the
/// predecessor to be active or quarantined, as both were read.
pub proof fn law_promotions_look_at_both_first(skill_id: Seq<char>, events: Seq<PromotionEvent>)
    ensures
        promotion_run(skill_id, events) matches PromotionProgressModel::Next(stage) ==> {
            &&& stage matches PromotionStage::Candidate { proposal } ==> operations::replaced_by(
                skill_id,
                Some(proposal),
            ) is Ok
            &&& stage matches PromotionStage::Predecessor { predecessor_id, candidate, .. } ==> {
                &&& events.contains(PromotionEvent::Candidate(candidate))
                &&& candidate.status == LifecycleStatus::Canary
                &&& text::opt_view(candidate.supersedes_id) == Some(predecessor_id@)
            }
            &&& stage.written() matches Some(subject) ==> {
                &&& subject.bound()
                &&& subject.fault(skill_id) is None
                &&& subject.predecessor.status == LifecycleStatus::Active
                    || subject.predecessor.status == LifecycleStatus::Quarantined
                &&& events.contains(PromotionEvent::Candidate(subject.candidate))
                &&& events.contains(
                    PromotionEvent::Predecessor {
                        state: subject.predecessor,
                        generation: subject.generation,
                    },
                )
            }
        },
    decreases events.len(),
{
    if events.len() > 0 {
        let init = events.drop_last();
        law_promotions_look_at_both_first(skill_id, init);
        assert forall|e: PromotionEvent| init.contains(e) implies #[trigger] events.contains(e) by {
            let i = init.index_of(e);
            assert(events[i] == e);
        }
        assert(events[events.len() - 1] == events.last());
        assert(events.contains(events.last()));
    }
}

/// What became of the containment of severe feedback.
#[derive(Debug)]
pub enum Contained {
    /// The feedback is not severe.
    NotApplicable,
    Skipped(String),
    Applied,
    Held(String),
}

/// The contents of a [`Contained`].
#[verifier::ext_equal]
pub enum ContainedModel {
    NotApplicable,
    Skipped(Seq<char>),
    Applied,
    Held(Seq<char>),
}

impl View for Contained {
    type V = ContainedModel;

    open spec fn view(&self) -> ContainedModel {
        match *self {
            Contained::NotApplicable => ContainedModel::NotApplicable,
            Contained::Skipped(s) => ContainedModel::Skipped(s@),
            Contained::Applied => ContainedModel::Applied,
            Contained::Held(s) => ContainedModel::Held(s@),
        }
    }
}

impl ContainedModel {
    /// How it is reported.
    pub open spec fn word(self) -> Seq<char> {
        match self {
            ContainedModel::NotApplicable => "not_applicable"@,
            ContainedModel::Skipped(_) => "skipped"@,
            ContainedModel::Applied => "applied"@,
            ContainedModel::Held(_) => "held"@,
        }
    }

    /// Why nothing was contained.
    pub open spec fn detail(self) -> Option<Seq<char>> {
        match self {
            ContainedModel::Skipped(s) => Some(s),
            ContainedModel::Held(s) => Some(s),
            _ => None,
        }
    }
}

/// Where feedback of the owner stands. Each stage names what is asked for next.
#[derive(Debug)]
pub enum FeedbackStage {
    /// The kind of feedback is checked.
    Check,
    /// The feedback is stored.
    Submit,
    /// The status of its target is read.
    Target { feedback_id: String },
    /// The index is brought up to date.
    Reconcile { feedback_id: String, from: LifecycleStatus, reason: QuarantineReason },
    /// The target and the generations are read again.
    Observe { feedback_id: String, from: LifecycleStatus, reason: QuarantineReason },
    /// The target is quarantined.
    Quarantine {
        feedback_id: String,
        from: LifecycleStatus,
        reason: QuarantineReason,
        row_version: u64,
        desired_generation: u64,
        applied_generation: u64,
    },
    /// The status of the target is read back.
    Status { feedback_id: String, contained: Contained },
}

/// The contents of a [`FeedbackStage`].
#[verifier::ext_equal]
pub enum FeedbackStageModel {
    Check,
    Submit,
    Target { feedback_id: Seq<char> },
    Reconcile { feedback_id: Seq<char>, from: LifecycleStatus, reason: QuarantineReason },
    Observe { feedback_id: Seq<char>, from: LifecycleStatus, reason: QuarantineReason },
    Quarantine {
        feedback_id: Seq<char>,
        from: LifecycleStatus,
        reason: QuarantineReason,
        row_version: u64,
        desired_generation: u64,
        applied_generation: u64,
    },
    Status { feedback_id: Seq<char>, contained: ContainedModel },
}

impl View for FeedbackStage {
    type V = FeedbackStageModel;

    open spec fn view(&self) -> FeedbackStageModel {
        match *self {
            FeedbackStage::Check => FeedbackStageModel::Check,
            FeedbackStage::Submit => FeedbackStageModel::Submit,
            FeedbackStage::Target { feedback_id } => {
                FeedbackStageModel::Target { feedback_id: feedback_id@ }
            },
            FeedbackStage::Reconcile { feedback_id, from, reason } => {
                FeedbackStageModel::Reconcile { feedback_id: feedback_id@, from, reason }
            },
            FeedbackStage::Observe { feedback_id, from, reason } => {
                FeedbackStageModel::Observe { feedback_id: feedback_id@, from, reason }
            },
            FeedbackStage::Quarantine {
                feedback_id,
                from,
                reason,
                row_version,
                desired_generation,
                applied_generation,
            } => FeedbackStageModel::Quarantine {
                feedback_id: feedback_id@,
                from,
                reason,
                row_version,
                desired_generation,
                applied_generation,
            },
            FeedbackStage::Status { feedback_id, contained } => FeedbackStageModel::Status {
                feedback_id: feedback_id@,
                contained: contained@,
            },
        }
    }
}

impl FeedbackStageModel {
    /// The feedback that is stored, once it is.
    pub open spec fn stored(self) -> Option<Seq<char>> {
        match self {
            FeedbackStageModel::Check => None,
            FeedbackStageModel::Submit => None,
            FeedbackStageModel::Target { feedback_id } => Some(feedback_id),
            FeedbackStageModel::Reconcile { feedback_id, .. } => Some(feedback_id),
            FeedbackStageModel::Observe { feedback_id, .. } => Some(feedback_id),
            FeedbackStageModel::Quarantine { feedback_id, .. } => Some(feedback_id),
            FeedbackStageModel::Status { feedback_id, .. } => Some(feedback_id),
        }
    }

    /// The stage belongs to the containment of the target.
    pub open spec fn contains_target(self) -> bool {
        self is Target || self is Reconcile || self is Observe || self is Quarantine
    }
}

/// What was answered to a stage of feedback. Failures come as text.
pub enum FeedbackEvent {
    /// The store or a clock could not be read.
    Unreadable(String),
    Begun,
    Submitted(Result<String, String>),
    Target(Option<String>),
    Reconciled(Result<(), String>),
    Observed { row_version: Option<u64>, desired_generation: u64, applied_generation: u64 },
    Quarantined(QuarantineAnswer),
    Status(Option<String>),
}

/// What comes of an answer to feedback.
pub enum FeedbackProgress {
    Next(FeedbackStage),
    Report(OperatorReport),
    Failed(OwnerFailure),
}

/// The contents of a [`FeedbackProgress`].
pub enum FeedbackProgressModel {
    Next(FeedbackStageModel),
    Report(ReportModel),
    Failed(OwnerFault),
}

impl View for FeedbackProgress {
    type V = FeedbackProgressModel;

    open spec fn view(&self) -> FeedbackProgressModel {
        match *self {
            FeedbackProgress::Next(stage) => FeedbackProgressModel::Next(stage@),
            FeedbackProgress::Report(report) => FeedbackProgressModel::Report(report@),
            FeedbackProgress::Failed(e) => FeedbackProgressModel::Failed(e@),
        }
    }
}

/// The words that name a kind of feedback.
pub open spec fn known_kind(kind: Seq<char>) -> bool {
    kind == "positive"@ || kind == "negative"@ || kind == "severe"@
}

/// What is wrong with what was seen before a quarantine.
pub open spec fn quarantine_fault(row_version: Option<u64>, desired_generation: u64) -> Option<
    Seq<char>,
> {
    match row_version {
        None => Some("feedback target disappeared before quarantine"@),
        Some(version) => if version > i64::MAX {
            Some("feedback target row version is out of range"@)
        } else if desired_generation > i64::MAX {
            Some("feedback target generation is out of range"@)
        } else {
            None
        },
    }
}

/// What an answer to feedback leads to.
pub open spec fn feedback_step(
    skill_id: Seq<char>,
    kind: Seq<char>,
    stage: FeedbackStageModel,
    event: FeedbackEvent,
) -> FeedbackProgressModel {
    match (stage, event) {
        (_, FeedbackEvent::Unreadable(e)) => FeedbackProgressModel::Failed(OwnerFault::Store(e@)),
        (FeedbackStageModel::Check, FeedbackEvent::Begun) => if known_kind(kind) {
            FeedbackProgressModel::Next(FeedbackStageModel::Submit)
        } else {
            FeedbackProgressModel::Failed(
                OwnerFault::Refused("invalid learned-skill feedback kind"@),
            )
        },
        (FeedbackStageModel::Submit, FeedbackEvent::Submitted(answer)) => match answer {
            Err(e) => FeedbackProgressModel::Failed(
                OwnerFault::Change {
                    context: "learned-skill feedback submission failed"@,
                    error: e@,
                },
            ),
            Ok(feedback_id) => FeedbackProgressModel::Next(
                if kind == "severe"@ {
                    FeedbackStageModel::Target { feedback_id: feedback_id@ }
                } else {
                    FeedbackStageModel::Status {
                        feedback_id: feedback_id@,
                        contained: ContainedModel::NotApplicable,
                    }
                },
            ),
        },
        (FeedbackStageModel::Target { feedback_id }, FeedbackEvent::Target(status)) => {
            match operations::containment(text::opt_view(status)) {
                Err(s) => FeedbackProgressModel::Failed(OwnerFault::Refused(s)),
                Ok(ContainmentModel::Skipped(detail)) => FeedbackProgressModel::Next(
                    FeedbackStageModel::Status {
                        feedback_id,
                        contained: ContainedModel::Skipped(detail),
                    },
                ),
                Ok(ContainmentModel::Quarantine { from, reason }) => FeedbackProgressModel::Next(
                    FeedbackStageModel::Reconcile { feedback_id, from, reason },
                ),
            }
        },
        (
            FeedbackStageModel::Reconcile { feedback_id, from, reason },
            FeedbackEvent::Reconciled(answer),
        ) => match answer {
            Err(e) => FeedbackProgressModel::Failed(
                OwnerFault::Reconcile { context: RECONCILE_QUARANTINE@, error: e@ },
            ),
            Ok(()) => FeedbackProgressModel::Next(
                FeedbackStageModel::Observe { feedback_id, from, reason },
            ),
        },
        (
            FeedbackStageModel::Observe { feedback_id, from, reason },
            FeedbackEvent::Observed { row_version, desired_generation, applied_generation },
        ) => match quarantine_fault(row_version, desired_generation) {
            Some(s) => FeedbackProgressModel::Failed(OwnerFault::Refused(s)),
            None => FeedbackProgressModel::Next(
                FeedbackStageModel::Quarantine {
                    feedback_id,
                    from,
                    reason,
                    row_version: row_version->0,
                    desired_generation,
                    applied_generation,
                },
            ),
        },
        (
            FeedbackStageModel::Quarantine { feedback_id, .. },
            FeedbackEvent::Quarantined(answer),
        ) => match answer {
            QuarantineAnswer::Applied => FeedbackProgressModel::Next(
                FeedbackStageModel::Status { feedback_id, contained: ContainedModel::Applied },
            ),
            QuarantineAnswer::Held(reason) => FeedbackProgressModel::Next(
                FeedbackStageModel::Status {
                    feedback_id,
                    contained: ContainedModel::Held(reason@),
                },
            ),
            QuarantineAnswer::Failed => FeedbackProgressModel::Failed(
                OwnerFault::Refused("severe feedback was stored but quarantine failed"@),
            ),
        },
        (FeedbackStageModel::Status { feedback_id, contained }, FeedbackEvent::Status(status)) => {
            FeedbackProgressModel::Report(
                operations::feedback_reported(
                    skill_id,
                    feedback_id,
                    kind,
                    commands::live_status(text::opt_view(status)),
                    contained.word(),
                    contained.detail(),
                ),
            )
        },
        (stage, _) => FeedbackProgressModel::Next(stage),
    }
}

fn look_before_quarantine(row_version: Option<u64>, desired_generation: u64) -> (r: Result<
    u64,
    String,
>)
    ensures
        match quarantine_fault(row_version, desired_generation) {
            Some(s) => r is Err && r->Err_0@ == s,
            None => r is Ok && row_version == Some(r->Ok_0),
        },
{
    match row_version {
        None => Err("feedback target disappeared before quarantine".to_owned()),
        Some(version) => {
            if version > i64::MAX as u64 {
                Err("feedback target row version is out of range".to_owned())
            } else if desired_generation > i64::MAX as u64 {
                Err("feedback target generation is out of range".to_owned())
            } else {
                Ok(version)
            }
        },
    }
}

fn settle(feedback_id: String, answer: QuarantineAnswer) -> (r: FeedbackProgress)
    ensures
        r@ == match answer {
            QuarantineAnswer::Applied => FeedbackProgressModel::Next(
                FeedbackStageModel::Status {
                    feedback_id: feedback_id@,
                    contained: ContainedModel::Applied,
                },
            ),
            QuarantineAnswer::Held(reason) => FeedbackProgressModel::Next(
                FeedbackStageModel::Status {
                    feedback_id: feedback_id@,
                    contained: ContainedModel::Held(reason@),
                },
            ),
            QuarantineAnswer::Failed => FeedbackProgressModel::Failed(
                OwnerFault::Refused("severe feedback was stored but quarantine failed"@),
            ),
        },
{
    match commands::settle_quarantine(answer) {
        Err(s) => FeedbackProgress::Failed(OwnerFailure::Refused(s.to_owned())),
        Ok((_, None)) => FeedbackProgress::Next(
            FeedbackStage::Status { feedback_id, contained: Contained::Applied },
        ),
        Ok((_, Some(reason))) => FeedbackProgress::Next(
            FeedbackStage::Status { feedback_id, contained: Contained::Held(reason) },
        ),
    }
}

fn contained_words(contained: Contained) -> (r: (&'static str, Option<String>))
    ensures
        r.0@ == contained@.word(),
        text::opt_view(r.1) == contained@.detail(),
{
    match contained {
        Contained::NotApplicable => ("not_applicable", None),
        Contained::Skipped(s) => ("skipped", Some(s)),
        Contained::Applied => ("applied", None),
        Contained::Held(s) => ("held", Some(s)),
    }
}

/// Takes feedback of the owner one answer further: it is stored, and where it is severe
/// its target is contained, if it can be reached by readers or is about to be. An answer
/// to another stage is passed over.
pub fn give_feedback(skill_id: &str, kind: &str, stage: FeedbackStage, event: FeedbackEvent) -> (r:
    FeedbackProgress)
    ensures
        r@ == feedback_step(skill_id@, kind@, stage@, event),
{
    match (stage, event) {
        (_, FeedbackEvent::Unreadable(e)) => FeedbackProgress::Failed(OwnerFailure::Store(e)),
        (FeedbackStage::Check, FeedbackEvent::Begun) => match operations::feedback_kind(kind) {
            Ok(_) => FeedbackProgress::Next(FeedbackStage::Submit),
            Err(s) => FeedbackProgress::Failed(OwnerFailure::Refused(s.to_owned())),
        },
        (FeedbackStage::Submit, FeedbackEvent::Submitted(answer)) => match answer {
            Err(error) => FeedbackProgress::Failed(
                OwnerFailure::Change {
                    context: "learned-skill feedback submission failed",
                    error,
                },
            ),
            Ok(feedback_id) => {
                if text::same(kind, "severe") {
                    FeedbackProgress::Next(FeedbackStage::Target { feedback_id })
                } else {
                    FeedbackProgress::Next(
                        FeedbackStage::Status { feedback_id, contained: Contained::NotApplicable },
                    )
                }
            },
        },
        (FeedbackStage::Target { feedback_id }, FeedbackEvent::Target(status)) => {
            match operations::contain_severe_feedback(&status) {
                Err(s) => FeedbackProgress::Failed(OwnerFailure::Refused(s.to_owned())),
                Ok(Containment::Skipped(detail)) => FeedbackProgress::Next(
                    FeedbackStage::Status { feedback_id, contained: Contained::Skipped(detail) },
                ),
                Ok(Containment::Quarantine { from, reason }) => FeedbackProgress::Next(
                    FeedbackStage::Reconcile { feedback_id, from, reason },
                ),
            }
        },
        (
            FeedbackStage::Reconcile { feedback_id, from, reason },
            FeedbackEvent::Reconciled(answer),
        ) => match answer {
            Err(error) => FeedbackProgress::Failed(
                OwnerFailure::Reconcile { context: RECONCILE_QUARANTINE, error },
            ),
            Ok(()) => FeedbackProgress::Next(FeedbackStage::Observe { feedback_id, from, reason }),
        },
        (
            FeedbackStage::Observe { feedback_id, from, reason },
            FeedbackEvent::Observed { row_version, desired_generation, applied_generation },
        ) => match look_before_quarantine(row_version, desired_generation) {
            Err(s) => FeedbackProgress::Failed(OwnerFailure::Refused(s)),
            Ok(row_version) => FeedbackProgress::Next(
                FeedbackStage::Quarantine {
                    feedback_id,
                    from,
                    reason,
                    row_version,
                    desired_generation,
                    applied_generation,
                },
            ),
        },
        (
            FeedbackStage::Quarantine { feedback_id, .. },
            FeedbackEvent::Quarantined(answer),
        ) => settle(feedback_id, answer),
        (FeedbackStage::Status { feedback_id, contained }, FeedbackEvent::Status(status)) => {
            let status = commands::live_revision_status(status);
            let (word, detail) = contained_words(contained);
            FeedbackProgress::Report(
                operations::feedback_report(skill_id, &feedback_id, kind, &status, word, &detail),
            )
        },
        (stage, _) => FeedbackProgress::Next(stage),
    }
}

/// Where feedback stands after a history of answers. What has ended stays so.
pub open spec fn feedback_run(
    skill_id: Seq<char>,
    kind: Seq<char>,
    events: Seq<FeedbackEvent>,
) -> FeedbackProgressModel
    decreases events.len(),
{
    if events.len() == 0 {
        FeedbackProgressModel::Next(FeedbackStageModel::Check)
    } else {
        match feedback_run(skill_id, kind, events.drop_last()) {
            FeedbackProgressModel::Next(stage) => feedback_step(
                skill_id,
                kind,
                stage,
                events.last(),
            ),
            ended => ended,
        }
    }
}

/// The feedback was stored under an id.
pub open spec fn was_stored(events: Seq<FeedbackEvent>, id: Seq<char>) -> bool {
    exists|i: int|
        0 <= i < events.len() && {
            let event = #[trigger] events[i];
            event matches FeedbackEvent::Submitted(Ok(feedback_id)) && feedback_id@ == id
        }
}

/// Only severe feedback touches its target, and only once it is stored: whatever becomes
/// of the containment, the feedback stays recorded under the id that is reported.
pub proof fn law_feedback_is_stored_before_its_target_is_touched(
    skill_id: Seq<char>,
    kind: Seq<char>,
    events: Seq<FeedbackEvent>,
)
    ensures
        match feedback_run(skill_id, kind, events) {
            FeedbackProgressModel::Next(stage) => {
                &&& stage.stored() matches Some(id) ==> was_stored(events, id)
                &&& stage.contains_target() ==> kind == "severe"@
                &&& !(stage is Check) ==> known_kind(kind)
            },
            FeedbackProgressModel::Report(_) => exists|id: Seq<char>| was_stored(events, id),
            FeedbackProgressModel::Failed(_) => true,
        },
    decreases events.len(),
{
    if events.len() > 0 {
        let init = events.drop_last();
        law_feedback_is_stored_before_its_target_is_touched(skill_id, kind, init);
        assert forall|id: Seq<char>| was_stored(init, id) implies #[trigger] was_stored(
            events,
            id,
        ) by {
            let i = choose|i: int|
                0 <= i < init.len() && {
                    let event = #[trigger] init[i];
                    event matches FeedbackEvent::Submitted(Ok(feedback_id)) && feedback_id@ == id
                };
            assert(events[i] == init[i]);
        }
        assert(events[events.len() - 1] == events.last());
        if let FeedbackEvent::Submitted(Ok(feedback_id)) = events.last() {
            assert(was_stored(events, feedback_id@));
        }
        match feedback_run(skill_id, kind, init) {
            FeedbackProgressModel::Next(stage) => {
                if let Some(id) = stage.stored() {
                    assert(was_stored(events, id));
                }
            },
            FeedbackProgressModel::Report(_) => {
                let id = choose|id: Seq<char>| was_stored(init, id);
                assert(was_stored(events, id));
            },
            FeedbackProgressModel::Failed(_) => {},
        }
    }
}

} // verus!
