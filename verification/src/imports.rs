//! The import of a package, from its first check to its report.
//!
//! What stands against the proposal is asked before anything is written: an import that
//! is refused leaves no held-out suite and no proposal behind.

use crate::admission::ProposalRecord;
use crate::artifact::SkillArtifact;
use crate::commands;
use crate::held_out::HeldOutSuiteDraft;
use crate::operations;
use crate::operations::{
    EnqueueAnswers, EvaluationOutcome, ImportAction, ImportModel, ImportReport, ImportStep,
    ImportWait, OperationError, OperationFault,
};
use crate::text;
use vstd::prelude::*;
use vstd::string::*;

verus! {

/// A package that is to be imported, and how long to wait for its evaluation, in
/// nanoseconds.
pub struct ImportPlan {
    pub label: String,
    pub artifact: SkillArtifact,
    pub predecessor_id: Option<String>,
    pub suites: Vec<HeldOutSuiteDraft>,
    pub budget: u64,
}

/// Where an import stands. Each stage names what is asked for next.
#[derive(Debug)]
pub enum ImportStage {
    /// The package is checked by itself.
    Validate,
    /// The store is asked what stands against the proposal.
    Preflight,
    /// The suite at the position is stored.
    Suites { at: usize },
    /// The store is asked whether the proposal is there already.
    Presence,
    /// The proposal is stored.
    Enqueue { already_present: bool },
    /// The stored proposal is read.
    Reread { proposal_id: String, already_present: bool },
    /// Another evaluation of the stored proposal is asked for.
    Requeue { existing: ProposalRecord, already_present: bool },
    /// The clock is read.
    Begin { existing: ProposalRecord, already_present: bool },
    /// The proposal, the queue and the clocks are looked at.
    Look { wait: ImportWait },
    /// The proposal is evaluated.
    Evaluate { wait: ImportWait, current: ProposalRecord, now: i64 },
}

impl ImportStage {
    /// What the stage asks for is written to the store: a suite, the proposal, or its
    /// return to the queue.
    pub open spec fn writes(self) -> bool {
        self is Suites || self is Enqueue || self is Requeue
    }

    /// The stage lies behind the question what stands against the proposal.
    pub open spec fn past_preflight(self) -> bool {
        !(self is Validate) && !(self is Preflight)
    }
}

/// What was answered to a stage. Failures of the store come as text.
pub enum ImportEvent {
    /// The store or a clock could not be read.
    Unreadable(String),
    Begun,
    Answers(Result<EnqueueAnswers, String>),
    Stored(Result<(), String>),
    Present(Result<bool, String>),
    Enqueued(Result<String, String>),
    Reread(Result<Option<ProposalRecord>, String>),
    Requeued(Result<(), String>),
    Clock(u64),
    Looked { current: Option<ProposalRecord>, head: Option<String>, now: i64, clock: u64 },
    Evaluated(EvaluationOutcome),
    /// The evaluation failed, and the proposal is no longer there.
    Gone,
}

/// Why an import failed.
#[derive(Debug)]
pub enum ImportFailure {
    /// The package is invalid.
    Package(OperationError),
    /// The store could not be read.
    Store(String),
    /// The proposal could not be enqueued.
    Refused(String),
    /// A suite could not be stored.
    Suite(String),
    /// The proposal could not be stored.
    Proposal(String),
    /// The stored proposal is gone.
    Disappeared,
    /// The proposal could not be returned to the queue.
    Requeue(String),
    /// The proposal did not pass, or could not be tried.
    Unverified(String),
}

/// The contents of an [`ImportFailure`].
#[verifier::ext_equal]
pub enum ImportFault {
    Package(OperationFault),
    Store(Seq<char>),
    Refused(Seq<char>),
    Suite(Seq<char>),
    Proposal(Seq<char>),
    Disappeared,
    Requeue(Seq<char>),
    Unverified(Seq<char>),
}

impl View for ImportFailure {
    type V = ImportFault;

    open spec fn view(&self) -> ImportFault {
        match *self {
            ImportFailure::Package(e) => ImportFault::Package(e@),
            ImportFailure::Store(s) => ImportFault::Store(s@),
            ImportFailure::Refused(s) => ImportFault::Refused(s@),
            ImportFailure::Suite(s) => ImportFault::Suite(s@),
            ImportFailure::Proposal(s) => ImportFault::Proposal(s@),
            ImportFailure::Disappeared => ImportFault::Disappeared,
            ImportFailure::Requeue(s) => ImportFault::Requeue(s@),
            ImportFailure::Unverified(s) => ImportFault::Unverified(s@),
        }
    }
}

impl ImportFault {
    /// The sentence that reports the fault; none where the package's own fault speaks.
    pub open spec fn sentence(self) -> Option<Seq<char>> {
        match self {
            ImportFault::Package(_) => None,
            ImportFault::Store(s) => Some(s),
            ImportFault::Refused(s) => Some("learned-skill proposal cannot be enqueued: "@ + s),
            ImportFault::Suite(s) => Some(
                "failed to import learned-skill held-out baseline: "@ + s,
            ),
            ImportFault::Proposal(s) => Some("failed to enqueue learned-skill proposal: "@ + s),
            ImportFault::Disappeared => Some("imported proposal disappeared"@),
            ImportFault::Requeue(s) => Some(
                "failed to requeue proposal after held-out baseline import: "@ + s,
            ),
            ImportFault::Unverified(s) => Some(s),
        }
    }
}

impl ImportFailure {
    /// The sentence that reports the failure; none where the package's own error speaks.
    pub fn message(&self) -> (r: Option<String>)
        ensures
            text::opt_view(r) == self@.sentence(),
    {
        match self {
            ImportFailure::Package(_) => None,
            ImportFailure::Store(s) => Some(s.clone()),
            ImportFailure::Refused(s) => Some(
                text::join2("learned-skill proposal cannot be enqueued: ", s),
            ),
            ImportFailure::Suite(s) => Some(
                text::join2("failed to import learned-skill held-out baseline: ", s),
            ),
            ImportFailure::Proposal(s) => Some(
                text::join2("failed to enqueue learned-skill proposal: ", s),
            ),
            ImportFailure::Disappeared => Some("imported proposal disappeared".to_owned()),
            ImportFailure::Requeue(s) => Some(
                text::join2("failed to requeue proposal after held-out baseline import: ", s),
            ),
            ImportFailure::Unverified(s) => Some(s.clone()),
        }
    }
}

/// What comes of an answer.
pub enum ImportProgress {
    Next(ImportStage),
    /// After so many nanoseconds the stage is next.
    Sleep { nanos: u64, stage: ImportStage },
    Report(ImportReport),
    Failed(ImportFailure),
}

/// The contents of an [`ImportProgress`].
pub enum ProgressModel {
    Next(ImportStage),
    Sleep { nanos: u64, stage: ImportStage },
    Report(ImportModel),
    Failed(ImportFault),
}

impl View for ImportProgress {
    type V = ProgressModel;

    open spec fn view(&self) -> ProgressModel {
        match *self {
            ImportProgress::Next(stage) => ProgressModel::Next(stage),
            ImportProgress::Sleep { nanos, stage } => ProgressModel::Sleep { nanos, stage },
            ImportProgress::Report(report) => ProgressModel::Report(report@),
            ImportProgress::Failed(e) => ProgressModel::Failed(e@),
        }
    }
}

/// The stage that follows so many stored suites.
pub open spec fn suite_stage(at: usize, suites: nat) -> ImportStage {
    if at < suites {
        ImportStage::Suites { at }
    } else {
        ImportStage::Presence
    }
}

/// What a step of the wait is to the import.
pub open spec fn waiting(
    step: ImportStep,
    wait: ImportWait,
    current: ProposalRecord,
    now: i64,
) -> ProgressModel {
    match step {
        ImportStep::Report(report) => ProgressModel::Report(report),
        ImportStep::Refuse(s) => ProgressModel::Failed(ImportFault::Unverified(s)),
        ImportStep::Sleep(nanos) => ProgressModel::Sleep {
            nanos,
            stage: ImportStage::Look { wait },
        },
        ImportStep::Evaluate => ProgressModel::Next(ImportStage::Evaluate { wait, current, now }),
        ImportStep::Continue => ProgressModel::Next(ImportStage::Look { wait }),
    }
}

/// What an answer leads to.
pub open spec fn import_step(
    plan: ImportPlan,
    stage: ImportStage,
    event: ImportEvent,
) -> ProgressModel {
    match (stage, event) {
        (_, ImportEvent::Unreadable(e)) => ProgressModel::Failed(ImportFault::Store(e@)),
        (ImportStage::Validate, ImportEvent::Begun) => match operations::package_fault(
            plan.suites@,
            plan.label@,
        ) {
            Some(f) => ProgressModel::Failed(ImportFault::Package(f)),
            None => ProgressModel::Next(ImportStage::Preflight),
        },
        (ImportStage::Preflight, ImportEvent::Answers(answer)) => match answer {
            Err(e) => ProgressModel::Failed(ImportFault::Store(e@)),
            Ok(answers) => match operations::enqueue_refusal(
                plan.artifact,
                text::opt_view(plan.predecessor_id),
                answers,
            ) {
                Some(s) => ProgressModel::Failed(ImportFault::Refused(s)),
                None => ProgressModel::Next(suite_stage(0, plan.suites@.len())),
            },
        },
        (ImportStage::Suites { at }, ImportEvent::Stored(answer)) => match answer {
            Err(e) => ProgressModel::Failed(ImportFault::Suite(e@)),
            Ok(()) => if at < plan.suites@.len() {
                ProgressModel::Next(suite_stage((at + 1) as usize, plan.suites@.len()))
            } else {
                ProgressModel::Next(ImportStage::Presence)
            },
        },
        (ImportStage::Presence, ImportEvent::Present(answer)) => match answer {
            Err(e) => ProgressModel::Failed(ImportFault::Store(e@)),
            Ok(already_present) => ProgressModel::Next(ImportStage::Enqueue { already_present }),
        },
        (ImportStage::Enqueue { already_present }, ImportEvent::Enqueued(answer)) => {
            match answer {
                Err(e) => ProgressModel::Failed(ImportFault::Proposal(e@)),
                Ok(proposal_id) => ProgressModel::Next(
                    ImportStage::Reread { proposal_id, already_present },
                ),
            }
        },
        (ImportStage::Reread { already_present, .. }, ImportEvent::Reread(answer)) => match answer {
            Err(e) => ProgressModel::Failed(ImportFault::Store(e@)),
            Ok(None) => ProgressModel::Failed(ImportFault::Disappeared),
            Ok(Some(existing)) => if commands::is_parked(existing) {
                ProgressModel::Next(ImportStage::Requeue { existing, already_present })
            } else {
                ProgressModel::Next(ImportStage::Begin { existing, already_present })
            },
        },
        (ImportStage::Requeue { existing, already_present }, ImportEvent::Requeued(answer)) => {
            match answer {
                Err(e) => ProgressModel::Failed(ImportFault::Requeue(e@)),
                Ok(()) => ProgressModel::Next(ImportStage::Begin { existing, already_present }),
            }
        },
        (ImportStage::Begin { existing, already_present }, ImportEvent::Clock(clock)) => {
            ProgressModel::Next(
                ImportStage::Look {
                    wait: commands::wait_from(existing, already_present, clock, plan.budget),
                },
            )
        },
        (ImportStage::Look { wait }, ImportEvent::Looked { current, head, now, clock }) => {
            match current {
                None => ProgressModel::Failed(ImportFault::Disappeared),
                Some(current) => waiting(
                    wait.next_step(current, text::opt_view(head), now, clock),
                    ImportWait {
                        blocked_since: wait.next_blocked(
                            current,
                            text::opt_view(head),
                            now,
                            clock,
                        ),
                        ..wait
                    },
                    current,
                    now,
                ),
            }
        },
        (ImportStage::Evaluate { wait, current, now }, ImportEvent::Evaluated(outcome)) => waiting(
            wait.step_after(current, outcome, now),
            wait.wait_after(outcome),
            current,
            now,
        ),
        (ImportStage::Evaluate { .. }, ImportEvent::Gone) => ProgressModel::Failed(
            ImportFault::Disappeared,
        ),
        (stage, _) => ProgressModel::Next(stage),
    }
}

fn next_suite(at: usize, suites: usize) -> (r: ImportStage)
    ensures
        r == suite_stage(at, suites as nat),
{
    if at < suites {
        ImportStage::Suites { at }
    } else {
        ImportStage::Presence
    }
}

fn carry_on(action: ImportAction, wait: ImportWait, current: ProposalRecord, now: i64) -> (r:
    ImportProgress)
    ensures
        r@ == waiting(action@, wait, current, now),
{
    match action {
        ImportAction::Report(report) => ImportProgress::Report(report),
        ImportAction::Refuse(s) => ImportProgress::Failed(ImportFailure::Unverified(s)),
        ImportAction::Sleep(nanos) => ImportProgress::Sleep {
            nanos,
            stage: ImportStage::Look { wait },
        },
        ImportAction::Evaluate => ImportProgress::Next(
            ImportStage::Evaluate { wait, current, now },
        ),
        ImportAction::Continue => ImportProgress::Next(ImportStage::Look { wait }),
    }
}

/// Takes an import one answer further: from the check of the package over what stands
/// against it, its suites and its proposal to the report of its evaluation. An answer to
/// another stage is passed over.
pub fn import_package(plan: &ImportPlan, stage: ImportStage, event: ImportEvent) -> (r:
    ImportProgress)
    requires
        event matches ImportEvent::Clock(clock) ==> clock + plan.budget <= u64::MAX,
    ensures
        r@ == import_step(*plan, stage, event),
{
    match (stage, event) {
        (_, ImportEvent::Unreadable(e)) => ImportProgress::Failed(ImportFailure::Store(e)),
        (ImportStage::Validate, ImportEvent::Begun) => match operations::validate_package(
            &plan.suites,
            &plan.label,
        ) {
            Err(e) => ImportProgress::Failed(ImportFailure::Package(e)),
            Ok(()) => ImportProgress::Next(ImportStage::Preflight),
        },
        (ImportStage::Preflight, ImportEvent::Answers(answer)) => match answer {
            Err(e) => ImportProgress::Failed(ImportFailure::Store(e)),
            Ok(answers) => match operations::preflight_enqueue(
                &plan.artifact,
                &plan.predecessor_id,
                &answers,
            ) {
                Err(s) => ImportProgress::Failed(ImportFailure::Refused(s)),
                Ok(()) => ImportProgress::Next(next_suite(0, plan.suites.len())),
            },
        },
        (ImportStage::Suites { at }, ImportEvent::Stored(answer)) => match answer {
            Err(e) => ImportProgress::Failed(ImportFailure::Suite(e)),
            Ok(()) => {
                if at < plan.suites.len() {
                    ImportProgress::Next(next_suite(at + 1, plan.suites.len()))
                } else {
                    ImportProgress::Next(ImportStage::Presence)
                }
            },
        },
        (ImportStage::Presence, ImportEvent::Present(answer)) => match answer {
            Err(e) => ImportProgress::Failed(ImportFailure::Store(e)),
            Ok(already_present) => ImportProgress::Next(ImportStage::Enqueue { already_present }),
        },
        (ImportStage::Enqueue { already_present }, ImportEvent::Enqueued(answer)) => {
            match answer {
                Err(e) => ImportProgress::Failed(ImportFailure::Proposal(e)),
                Ok(proposal_id) => ImportProgress::Next(
                    ImportStage::Reread { proposal_id, already_present },
                ),
            }
        },
        (ImportStage::Reread { already_present, .. }, ImportEvent::Reread(answer)) => match answer {
            Err(e) => ImportProgress::Failed(ImportFailure::Store(e)),
            Ok(None) => ImportProgress::Failed(ImportFailure::Disappeared),
            Ok(Some(existing)) => {
                if commands::needs_requeue(&existing) {
                    ImportProgress::Next(ImportStage::Requeue { existing, already_present })
                } else {
                    ImportProgress::Next(ImportStage::Begin { existing, already_present })
                }
            },
        },
        (ImportStage::Requeue { existing, already_present }, ImportEvent::Requeued(answer)) => {
            match answer {
                Err(e) => ImportProgress::Failed(ImportFailure::Requeue(e)),
                Ok(()) => ImportProgress::Next(ImportStage::Begin { existing, already_present }),
            }
        },
        (ImportStage::Begin { existing, already_present }, ImportEvent::Clock(clock)) => {
            let wait = commands::begin_wait(existing, already_present, clock, plan.budget);
            ImportProgress::Next(ImportStage::Look { wait })
        },
        (ImportStage::Look { wait }, ImportEvent::Looked { current, head, now, clock }) => {
            match current {
                None => ImportProgress::Failed(ImportFailure::Disappeared),
                Some(current) => {
                    let mut next = wait;
                    let action = next.import_package_within(&current, head, now, clock);
                    carry_on(action, next, current, now)
                },
            }
        },
        (ImportStage::Evaluate { wait, current, now }, ImportEvent::Evaluated(outcome)) => {
            let mut next = wait;
            let action = next.after_evaluation(&current, outcome, now);
            carry_on(action, next, current, now)
        },
        (ImportStage::Evaluate { .. }, ImportEvent::Gone) => ImportProgress::Failed(
            ImportFailure::Disappeared,
        ),
        (stage, _) => ImportProgress::Next(stage),
    }
}

/// Where an import stands after a history of answers. What has ended stays so.
pub open spec fn import_run(plan: ImportPlan, events: Seq<ImportEvent>) -> ProgressModel
    decreases events.len(),
{
    if events.len() == 0 {
        ProgressModel::Next(ImportStage::Validate)
    } else {
        match import_run(plan, events.drop_last()) {
            ProgressModel::Next(stage) => import_step(plan, stage, events.last()),
            ProgressModel::Sleep { stage, .. } => import_step(plan, stage, events.last()),
            ended => ended,
        }
    }
}

/// The stage at which an import stands, where it has not ended.
pub open spec fn stage_after(plan: ImportPlan, events: Seq<ImportEvent>) -> Option<ImportStage> {
    match import_run(plan, events) {
        ProgressModel::Next(stage) => Some(stage),
        ProgressModel::Sleep { stage, .. } => Some(stage),
        _ => None,
    }
}

/// The import has asked for a write by the time it stands after a history of answers: it
/// stood at a stage that writes at its end, or at some point before.
pub open spec fn has_written(plan: ImportPlan, events: Seq<ImportEvent>) -> bool {
    exists|n: int|
        0 <= n <= events.len() && {
            let stage = stage_after(plan, #[trigger] events.take(n));
            stage is Some && stage->0.writes()
        }
}

/// The store was asked what stands against the proposal, and nothing does.
pub open spec fn cleared(plan: ImportPlan, events: Seq<ImportEvent>) -> bool {
    &&& operations::package_fault(plan.suites@, plan.label@) is None
    &&& exists|i: int|
        0 <= i < events.len() && {
            let answers = #[trigger] events[i];
            answers matches ImportEvent::Answers(Ok(a)) && operations::enqueue_refusal(
                plan.artifact,
                text::opt_view(plan.predecessor_id),
                a,
            ) is None
        }
}

proof fn lemma_past_preflight_is_cleared(plan: ImportPlan, events: Seq<ImportEvent>)
    ensures
        stage_after(plan, events) matches Some(stage) && stage is Preflight
            ==> operations::package_fault(plan.suites@, plan.label@) is None,
        stage_after(plan, events) matches Some(stage) && stage.past_preflight() ==> cleared(
            plan,
            events,
        ),
    decreases events.len(),
{
    if events.len() > 0 {
        let init = events.drop_last();
        lemma_past_preflight_is_cleared(plan, init);
        if stage_after(plan, init) is Some && stage_after(plan, events) is Some {
            let before = stage_after(plan, init)->0;
            let after = stage_after(plan, events)->0;
            if before.past_preflight() {
                let i = choose|i: int|
                    0 <= i < init.len() && {
                        let answers = #[trigger] init[i];
                        answers matches ImportEvent::Answers(Ok(a)) && operations::enqueue_refusal(
                            plan.artifact,
                            text::opt_view(plan.predecessor_id),
                            a,
                        ) is None
                    };
                assert(events[i] == init[i]);
            } else if after.past_preflight() {
                assert(events[events.len() - 1] == events.last());
            }
        }
    }
}

/// Nothing is written before the package was found valid and the store had nothing
/// against its proposal.
pub proof fn law_imports_write_only_when_cleared(plan: ImportPlan, events: Seq<ImportEvent>)
    requires
        has_written(plan, events),
    ensures
        cleared(plan, events),
{
    let n = choose|n: int|
        0 <= n <= events.len() && {
            let stage = stage_after(plan, #[trigger] events.take(n));
            stage is Some && stage->0.writes()
        };
    let part = events.take(n);
    lemma_past_preflight_is_cleared(plan, part);
    let i = choose|i: int|
        0 <= i < part.len() && {
            let answers = #[trigger] part[i];
            answers matches ImportEvent::Answers(Ok(a)) && operations::enqueue_refusal(
                plan.artifact,
                text::opt_view(plan.predecessor_id),
                a,
            ) is None
        };
    assert(events[i] == part[i]);
}

proof fn lemma_refusals_come_first(plan: ImportPlan, events: Seq<ImportEvent>)
    requires
        import_run(plan, events) matches ProgressModel::Failed(f) && (f is Refused
            || f is Package),
    ensures
        forall|n: int|
            0 <= n <= events.len() ==> {
                let stage = stage_after(plan, #[trigger] events.take(n));
                stage matches Some(s) ==> !s.past_preflight()
            },
    decreases events.len(),
{
    let init = events.drop_last();
    match import_run(plan, init) {
        ProgressModel::Next(stage) => {
            lemma_early_stages(plan, init);
        },
        ProgressModel::Sleep { stage, .. } => {
            lemma_early_stages(plan, init);
        },
        _ => {
            lemma_refusals_come_first(plan, init);
        },
    }
    assert forall|n: int| 0 <= n <= events.len() implies {
        let stage = stage_after(plan, #[trigger] events.take(n));
        stage matches Some(s) ==> !s.past_preflight()
    } by {
        if n < events.len() {
            assert(events.take(n) =~= init.take(n));
        } else {
            assert(events.take(n) =~= events);
        }
    }
}

/// A stage before the first write has only such stages before it.
proof fn lemma_early_stages(plan: ImportPlan, events: Seq<ImportEvent>)
    requires
        stage_after(plan, events) matches Some(s) && !s.past_preflight(),
    ensures
        forall|n: int|
            0 <= n <= events.len() ==> {
                let stage = stage_after(plan, #[trigger] events.take(n));
                stage matches Some(s) ==> !s.past_preflight()
            },
    decreases events.len(),
{
    if events.len() > 0 {
        lemma_early_stages(plan, events.drop_last());
    }
    assert forall|n: int| 0 <= n <= events.len() implies {
        let stage = stage_after(plan, #[trigger] events.take(n));
        stage matches Some(s) ==> !s.past_preflight()
    } by {
        if n < events.len() {
            assert(events.take(n) =~= events.drop_last().take(n));
        } else {
            assert(events.take(n) =~= events);
        }
    }
}

/// An import that is refused stores no held-out suite and no proposal: neither where its
/// package is invalid nor where the store has something against its proposal.
pub proof fn law_refused_imports_write_nothing(plan: ImportPlan, events: Seq<ImportEvent>)
    requires
        import_run(plan, events) matches ProgressModel::Failed(f) && (f is Refused
            || f is Package),
    ensures
        !has_written(plan, events),
{
    lemma_refusals_come_first(plan, events);
}

/// A refusal names what the store has against the proposal, and it is final: no answer
/// that follows changes it.
pub proof fn law_refusals_are_final(
    plan: ImportPlan,
    answers: EnqueueAnswers,
    more: Seq<ImportEvent>,
)
    requires
        operations::package_fault(plan.suites@, plan.label@) is None,
        operations::enqueue_refusal(
            plan.artifact,
            text::opt_view(plan.predecessor_id),
            answers,
        ) is Some,
    ensures
        ({
            let events = seq![ImportEvent::Begun, ImportEvent::Answers(Ok(answers))] + more;
            &&& import_run(plan, events) == ProgressModel::Failed(
                ImportFault::Refused(
                    operations::enqueue_refusal(
                        plan.artifact,
                        text::opt_view(plan.predecessor_id),
                        answers,
                    )->0,
                ),
            )
            &&& !has_written(plan, events)
        }),
    decreases more.len(),
{
    let first = seq![ImportEvent::Begun, ImportEvent::Answers(Ok(answers))];
    let events = first + more;
    if more.len() == 0 {
        assert(events =~= first);
        assert(first.drop_last() =~= seq![ImportEvent::Begun]);
        assert(seq![ImportEvent::Begun].drop_last() =~= Seq::empty());
        assert(import_run(plan, Seq::empty()) == ProgressModel::Next(ImportStage::Validate));
        assert(import_run(plan, seq![ImportEvent::Begun]) == ProgressModel::Next(
            ImportStage::Preflight,
        ));
    } else {
        law_refusals_are_final(plan, answers, more.drop_last());
        assert(events.drop_last() =~= first + more.drop_last());
    }
    law_refused_imports_write_nothing(plan, events);
}

/// How many suites a history of answers has stored.
pub open spec fn suites_stored(plan: ImportPlan, events: Seq<ImportEvent>) -> nat
    decreases events.len(),
{
    if events.len() == 0 {
        0
    } else {
        let before = suites_stored(plan, events.drop_last());
        if stage_after(plan, events.drop_last()) matches Some(stage) && stage is Suites && (
        events.last() matches ImportEvent::Stored(Ok(()))) {
            before + 1
        } else {
            before
        }
    }
}

/// A proposal is stored only after every suite of its package was.
pub proof fn law_suites_come_before_the_proposal(plan: ImportPlan, events: Seq<ImportEvent>)
    ensures
        match stage_after(plan, events) {
            Some(ImportStage::Validate) => suites_stored(plan, events) == 0,
            Some(ImportStage::Preflight) => suites_stored(plan, events) == 0,
            Some(ImportStage::Suites { at }) => at < plan.suites@.len() && suites_stored(
                plan,
                events,
            ) == at,
            Some(_) => suites_stored(plan, events) == plan.suites@.len(),
            None => true,
        },
    decreases events.len(),
{
    if events.len() > 0 {
        law_suites_come_before_the_proposal(plan, events.drop_last());
        assert(plan.suites.len() == plan.suites@.len());
    }
}

} // verus!
