//! The commands of a local owner: which one is run, what it is asked with and what it
//! reports in the end.

use crate::admission::{CanaryApprovalResult, ProposalRecord, ProposalStatus, ReviewOutcome};
use crate::feedback::{ActorKind, AuthenticatedActor, FeedbackCommand, FeedbackKind};
use crate::lifecycle::{ReplacementTransitionOutcome, TransitionOutcome};
use crate::operations;
use crate::operations::{
    ImportReport, ImportWait, OperatorReport, ProposalQueueRow, ReportValue, MAX_PACKAGE_BYTES,
};
use crate::operations::{ReportModel, ValueModel};
use crate::text;
use vstd::prelude::*;
use vstd::string::*;

verus! {

/// Feedback as the owner gives it.
#[derive(Debug, Clone, PartialEq, Eq)]
pub struct FeedbackOperation {
    pub skill_id: String,
    pub invocation_id: Option<String>,
    pub kind: String,
    pub reason_code: String,
    pub idempotency_key: String,
}

/// What the owner can do with the library.
#[derive(Debug, Clone, PartialEq, Eq)]
pub enum LibraryOperation {
    Import(String),
    InstallSeeds,
    Approve(String),
    Reject(String),
    Activate(String),
    Promote(String),
    Retire(String),
    Reevaluate(String),
    ListSuites,
    DisableSuite(String),
}

/// The deletion of the bytes of one revision.
#[derive(Debug, Clone, PartialEq, Eq)]
pub struct PurgeOperation {
    pub skill_id: String,
    pub force: bool,
}

/// One command.
#[derive(Debug, Clone, PartialEq, Eq)]
pub enum Command {
    Library(LibraryOperation),
    Purge(PurgeOperation),
    Compact,
    Feedback(FeedbackOperation),
}

/// Picks the command to run. Only one runs: an operation on the library goes before a
/// purge, that before a compaction, and that before feedback.
pub fn run(
    purge: Option<PurgeOperation>,
    compact: bool,
    feedback: Option<FeedbackOperation>,
    library: Option<LibraryOperation>,
) -> (r: Option<Command>)
    ensures
        r == match library {
            Some(operation) => Some(Command::Library(operation)),
            None => match purge {
                Some(operation) => Some(Command::Purge(operation)),
                None => if compact {
                    Some(Command::Compact)
                } else {
                    match feedback {
                        Some(operation) => Some(Command::Feedback(operation)),
                        None => None,
                    }
                },
            },
        },
{
    if let Some(operation) = library {
        return Some(Command::Library(operation));
    }
    if let Some(operation) = purge {
        return Some(Command::Purge(operation));
    }
    if compact {
        return Some(Command::Compact);
    }
    match feedback {
        Some(operation) => Some(Command::Feedback(operation)),
        None => None,
    }
}

/// The time before which raw telemetry is compacted.
pub fn compaction_cutoff(now: i64, retention_seconds: i64) -> (r: i64)
    ensures
        r == if now - retention_seconds < i64::MIN {
            i64::MIN as int
        } else if now - retention_seconds > i64::MAX {
            i64::MAX as int
        } else {
            now - retention_seconds
        },
{
    match now.checked_sub(retention_seconds) {
        Some(cutoff) => cutoff,
        None => if retention_seconds > 0 {
            i64::MIN
        } else {
            i64::MAX
        },
    }
}

/// The report of a compaction.
pub fn compact_report(events: u64, through_event_id: i64) -> (r: OperatorReport)
    ensures
        r@ == ReportModel::of("compact"@).and("events"@, ValueModel::Count(events)).and(
            "through_event_id"@,
            ValueModel::Number(through_event_id),
        ),
{
    OperatorReport::new("compact").with("events", ReportValue::Count(events)).with(
        "through_event_id",
        ReportValue::Number(through_event_id),
    )
}

/// The report of a suite that was disabled; it may have been so before.
pub fn disable_suite_report(id: &str, changed: bool) -> (r: OperatorReport)
    ensures
        r@ == ReportModel::of("disable-suite"@).and("id"@, ValueModel::Text(id@)).and(
            "enabled"@,
            ValueModel::Flag(false),
        ).and("idempotent"@, ValueModel::Flag(!changed)),
{
    OperatorReport::new("disable-suite").with_text("id", id).with(
        "enabled",
        ReportValue::Flag(false),
    ).with("idempotent", ReportValue::Flag(!changed))
}

/// The report of a retirement. One that found the revision retired names no generation.
pub fn retire_report(skill_id: &str, status: &str, generation: Option<u64>) -> (r: OperatorReport)
    ensures
        r@ == ({
            let head = ReportModel::of("retire"@).and("id"@, ValueModel::Text(skill_id@)).and(
                "status"@,
                ValueModel::Text(status@),
            );
            match generation {
                Some(n) => head.and("generation"@, ValueModel::Count(n)).and(
                    "idempotent"@,
                    ValueModel::Flag(false),
                ),
                None => head.and("idempotent"@, ValueModel::Flag(true)),
            }
        }),
{
    let head = OperatorReport::new("retire").with_text("id", skill_id).with_text("status", status);
    match generation {
        Some(n) => head.with("generation", ReportValue::Count(n)).with(
            "idempotent",
            ReportValue::Flag(false),
        ),
        None => head.with("idempotent", ReportValue::Flag(true)),
    }
}

/// The report of a rejection.
pub fn reject_report(skill_id: &str, status: &str) -> (r: OperatorReport)
    ensures
        r@ == ReportModel::of("reject"@).and("id"@, ValueModel::Text(skill_id@)).and(
            "status"@,
            ValueModel::Text(status@),
        ).and("idempotent"@, ValueModel::Flag(false)),
{
    OperatorReport::new("reject").with_text("id", skill_id).with_text("status", status).with(
        "idempotent",
        ReportValue::Flag(false),
    )
}

/// What is reported of an activation. One that found the skill active changed nothing;
/// else the flag says whether only removals are visible yet.
pub open spec fn activation_reported(
    skill_id: Seq<char>,
    done: Option<(TransitionOutcome, bool)>,
) -> ReportModel {
    match done {
        None => ReportModel::of("activate"@).and("id"@, ValueModel::Text(skill_id)).and(
            "status"@,
            ValueModel::Text("active"@),
        ).and("idempotent"@, ValueModel::Flag(true)),
        Some((outcome, removal_only)) => ReportModel::of("activate"@).and(
            "id"@,
            ValueModel::Text(skill_id),
        ).and("status"@, ValueModel::Text(outcome.status.token())).and(
            "generation"@,
            ValueModel::Number(outcome.desired_generation),
        ).and("removal_only"@, ValueModel::Flag(removal_only)).and(
            "idempotent"@,
            ValueModel::Flag(false),
        ),
    }
}

/// The report of an activation; one that found the skill active changed nothing.
pub fn activate_report(skill_id: &str, done: Option<(&TransitionOutcome, bool)>) -> (r:
    OperatorReport)
    ensures
        r@ == activation_reported(
            skill_id@,
            match done {
                None => None,
                Some((outcome, removal_only)) => Some((*outcome, removal_only)),
            },
        ),
{
    let head = OperatorReport::new("activate").with_text("id", skill_id);
    match done {
        None => head.with_text("status", "active").with("idempotent", ReportValue::Flag(true)),
        Some((outcome, removal_only)) => head.with_text("status", outcome.status.as_token()).with(
            "generation",
            ReportValue::Number(outcome.desired_generation),
        ).with("removal_only", ReportValue::Flag(removal_only)).with(
            "idempotent",
            ReportValue::Flag(false),
        ),
    }
}

/// What is reported of a promotion. One that found the replacement active changed nothing;
/// else the flag says whether only removals are visible yet.
pub open spec fn promotion_reported(
    skill_id: Seq<char>,
    predecessor_id: Seq<char>,
    done: Option<(ReplacementTransitionOutcome, bool)>,
) -> ReportModel {
    match done {
        None => ReportModel::of("promote"@).and("id"@, ValueModel::Text(skill_id)).and(
            "status"@,
            ValueModel::Text("active"@),
        ).and("predecessor"@, ValueModel::Text(predecessor_id)).and(
            "idempotent"@,
            ValueModel::Flag(true),
        ),
        Some((outcome, removal_only)) => ReportModel::of("promote"@).and(
            "id"@,
            ValueModel::Text(skill_id),
        ).and("status"@, ValueModel::Text(outcome.candidate_status.token())).and(
            "predecessor"@,
            ValueModel::Text(predecessor_id),
        ).and(
            "predecessor_status"@,
            ValueModel::Text(outcome.predecessor_status.token()),
        ).and("generation"@, ValueModel::Number(outcome.desired_generation)).and(
            "removal_only"@,
            ValueModel::Flag(removal_only),
        ).and("idempotent"@, ValueModel::Flag(false)),
    }
}

/// The report of a promotion; one that found the replacement active changed nothing.
pub fn promote_report(
    skill_id: &str,
    predecessor_id: &str,
    done: Option<(&ReplacementTransitionOutcome, bool)>,
) -> (r: OperatorReport)
    ensures
        r@ == promotion_reported(
            skill_id@,
            predecessor_id@,
            match done {
                None => None,
                Some((outcome, removal_only)) => Some((*outcome, removal_only)),
            },
        ),
{
    let head = OperatorReport::new("promote").with_text("id", skill_id);
    match done {
        None => head.with_text("status", "active").with_text("predecessor", predecessor_id).with(
            "idempotent",
            ReportValue::Flag(true),
        ),
        Some((outcome, removal_only)) => head.with_text(
            "status",
            outcome.candidate_status.as_token(),
        ).with_text("predecessor", predecessor_id).with_text(
            "predecessor_status",
            outcome.predecessor_status.as_token(),
        ).with("generation", ReportValue::Number(outcome.desired_generation)).with(
            "removal_only",
            ReportValue::Flag(removal_only),
        ).with("idempotent", ReportValue::Flag(false)),
    }
}

/// The status of a revision as it is reported; one that is gone is absent.
pub open spec fn live_status(status: Option<Seq<char>>) -> Seq<char> {
    match status {
        Some(s) => s,
        None => "absent"@,
    }
}

/// The status that the store holds, or a word for none.
pub fn live_revision_status(status: Option<String>) -> (r: String)
    ensures
        r@ == live_status(text::opt_view(status)),
{
    match status {
        Some(s) => s,
        None => "absent".to_owned(),
    }
}

/// The heading of the list of waiting proposals.
pub const QUEUE_HEADER: &'static str = "proposal_id\tskill_id\tstatus\treason_code\treport_id\tcreated_at_unix\tupdated_at_unix";

/// The last line of the list of waiting proposals.
pub fn queue_total_line(count: usize) -> (r: String)
    ensures
        r@ == "total\t"@ + text::decimal(count as nat) + "\t-\t-\t-\t-\t-"@,
{
    let n = text::render_u64(count as u64);
    text::join3("total\t", &n, "\t-\t-\t-\t-\t-")
}

/// A row is about a proposal: it names it, or its skill.
pub open spec fn is_about(row: ProposalQueueRow, id: Seq<char>) -> bool {
    row.proposal_id@ == id || row.skill_id@ == id
}

/// Finds a proposal by its id or by that of its skill, whatever its status.
pub fn load_proposal(rows: &Vec<ProposalQueueRow>, id: &str) -> (r: Option<usize>)
    ensures
        match r {
            Some(k) => {
                &&& k < rows@.len()
                &&& is_about(rows@[k as int], id@)
                &&& forall|i: int| 0 <= i < k ==> !is_about(#[trigger] rows@[i], id@)
            },
            None => forall|i: int| 0 <= i < rows@.len() ==> !is_about(#[trigger] rows@[i], id@),
        },
{
    let mut i: usize = 0;
    while i < rows.len()
        invariant
            i <= rows@.len(),
            forall|j: int| 0 <= j < i ==> !is_about(#[trigger] rows@[j], id@),
        decreases rows@.len() - i,
    {
        if text::same(&rows[i].proposal_id, id) || text::same(&rows[i].skill_id, id) {
            return Some(i);
        }
        i = i + 1;
    }
    None
}

/// Whether a proposal came to an outcome that nobody can approve, so that the owner is
/// warned of it.
pub fn needs_attention(row: &ProposalQueueRow) -> (r: bool)
    ensures
        r == (row.status@ == "rejected"@ || row.status@ == "deferred"@),
{
    text::same(&row.status, "rejected") || text::same(&row.status, "deferred")
}

/// Turns feedback of the owner into a command, and into an actor who may target that
/// one skill.
pub fn submit_feedback(operation: &FeedbackOperation) -> (r: Result<
    (FeedbackCommand, AuthenticatedActor),
    &'static str,
>)
    ensures
        match r {
            Ok((command, actor)) => {
                &&& operation.kind@ == "positive"@ || operation.kind@ == "negative"@
                    || operation.kind@ == "severe"@
                &&& command.kind == if operation.kind@ == "positive"@ {
                    FeedbackKind::Positive
                } else if operation.kind@ == "negative"@ {
                    FeedbackKind::Negative
                } else {
                    FeedbackKind::Severe
                }
                &&& command.idempotency_key@ == operation.idempotency_key@
                &&& command.skill_id@ == operation.skill_id@
                &&& text::opt_view(command.invocation_id) == text::opt_view(
                    operation.invocation_id,
                )
                &&& command.reason_code@ == operation.reason_code@
                &&& command.reason_text is None
                &&& actor.actor_id@ == "local-owner"@
                &&& actor.kind == ActorKind::Owner
                &&& actor.allowed_skill_ids is Some
                &&& text::views(actor.allowed_skill_ids->0@) == seq![operation.skill_id@]
            },
            Err(e) => {
                &&& e@ == "invalid learned-skill feedback kind"@
                &&& operation.kind@ != "positive"@
                &&& operation.kind@ != "negative"@
                &&& operation.kind@ != "severe"@
            },
        },
{
    let kind = match operations::feedback_kind(&operation.kind) {
        Ok(kind) => kind,
        Err(e) => {
            return Err(e);
        },
    };
    let mut allowed: Vec<String> = Vec::new();
    allowed.push(operation.skill_id.clone());
    assert(text::views(allowed@) =~= seq![operation.skill_id@]);
    Ok(
        (
            FeedbackCommand {
                idempotency_key: operation.idempotency_key.clone(),
                skill_id: operation.skill_id.clone(),
                invocation_id: text::clone_opt(&operation.invocation_id),
                kind,
                reason_code: operation.reason_code.clone(),
                reason_text: None,
            },
            AuthenticatedActor {
                actor_id: "local-owner".to_owned(),
                kind: ActorKind::Owner,
                allowed_skill_ids: Some(allowed),
            },
        ),
    )
}

/// What came of a quarantine: it was applied, the policy held it for the reason given,
/// or it failed.
#[derive(Debug, Clone, PartialEq, Eq)]
pub enum QuarantineAnswer {
    Applied,
    Held(String),
    Failed,
}

/// How a quarantine is reported beside the feedback. That the policy held it is a
/// decision; only a failure fails the command.
pub fn settle_quarantine(answer: QuarantineAnswer) -> (r: Result<
    (&'static str, Option<String>),
    &'static str,
>)
    ensures
        match answer {
            QuarantineAnswer::Applied => r matches Ok((word, detail)) && word@ == "applied"@
                && detail is None,
            QuarantineAnswer::Held(reason) => r matches Ok((word, detail)) && word@ == "held"@
                && detail == Some(reason),
            QuarantineAnswer::Failed => r is Err && r->Err_0@
                == "severe feedback was stored but quarantine failed"@,
        },
{
    match answer {
        QuarantineAnswer::Applied => Ok(("applied", None)),
        QuarantineAnswer::Held(reason) => Ok(("held", Some(reason))),
        QuarantineAnswer::Failed => Err("severe feedback was stored but quarantine failed"),
    }
}

/// The approval that the owner's own decision came to.
pub fn review_proposal(outcome: ReviewOutcome) -> (r: Result<CanaryApprovalResult, &'static str>)
    ensures
        match outcome {
            ReviewOutcome::Canary(result) => r == Ok::<CanaryApprovalResult, &'static str>(result),
            _ => r is Err && r->Err_0@ == "local-owner learned-skill review did not complete"@,
        },
{
    match outcome {
        ReviewOutcome::Canary(result) => Ok(result),
        _ => Err("local-owner learned-skill review did not complete"),
    }
}

/// What a path that is imported holds.
#[derive(Debug, Clone, Copy, PartialEq, Eq)]
pub enum ImportTarget {
    File,
    Directory,
}

/// Decides how a path is imported. A link is never followed.
pub fn import_target(is_symlink: bool, is_file: bool, is_dir: bool) -> (r: Result<
    ImportTarget,
    &'static str,
>)
    ensures
        if is_symlink {
            r is Err && r->Err_0@ == "learned-skill import path must not be a symbolic link"@
        } else if is_file {
            r == Ok::<ImportTarget, &'static str>(ImportTarget::File)
        } else if is_dir {
            r == Ok::<ImportTarget, &'static str>(ImportTarget::Directory)
        } else {
            r is Err && r->Err_0@ == "learned-skill import path must be a JSON file or directory"@
        },
{
    if is_symlink {
        return Err("learned-skill import path must not be a symbolic link");
    }
    if is_file {
        return Ok(ImportTarget::File);
    }
    if is_dir {
        return Ok(ImportTarget::Directory);
    }
    Err("learned-skill import path must be a JSON file or directory")
}

/// Checks that a package is a plain file of a bounded size.
pub fn check_package(regular: bool, bytes: u64) -> (r: Result<(), &'static str>)
    ensures
        if !regular {
            r is Err && r->Err_0@ == "learned-skill package must be a regular file"@
        } else if bytes > MAX_PACKAGE_BYTES {
            r is Err && r->Err_0@ == "learned-skill package exceeds 256 KiB"@
        } else {
            r is Ok
        },
{
    if !regular {
        return Err("learned-skill package must be a regular file");
    }
    if bytes > MAX_PACKAGE_BYTES {
        return Err("learned-skill package exceeds 256 KiB");
    }
    Ok(())
}

/// A proposal was parked for want of suites.
pub open spec fn is_parked(proposal: ProposalRecord) -> bool {
    proposal.status == ProposalStatus::Verified && text::opt_view(proposal.reason_code) == Some(
        "held_out_suite_required"@,
    )
}

/// Whether an import asks for another evaluation: the proposal was parked for want of
/// the suites that the import brought.
pub fn needs_requeue(existing: &ProposalRecord) -> (r: bool)
    ensures
        r == is_parked(*existing),
{
    match existing.status {
        ProposalStatus::Verified => text::is_text(&existing.reason_code, "held_out_suite_required"),
        _ => false,
    }
}

/// The wait of an import for its evaluation, from the proposal as it is stored.
pub open spec fn wait_from(
    existing: ProposalRecord,
    already_present: bool,
    clock: u64,
    budget: u64,
) -> ImportWait {
    ImportWait {
        proposal_id: existing.proposal_id,
        already_present,
        deadline: (clock + budget) as u64,
        infrastructure_attempts: existing.infrastructure_attempt_count,
        blocked_since: None,
    }
}

/// Starts the wait of an import for its evaluation.
pub fn begin_wait(
    existing: ProposalRecord,
    already_present: bool,
    clock: u64,
    budget: u64,
) -> (r: ImportWait)
    requires
        clock + budget <= u64::MAX,
    ensures
        r == wait_from(existing, already_present, clock, budget),
{
    ImportWait {
        proposal_id: existing.proposal_id,
        already_present,
        deadline: clock + budget,
        infrastructure_attempts: existing.infrastructure_attempt_count,
        blocked_since: None,
    }
}

/// The report of one bundled package: what its import reached, or why it failed.
pub fn seed_report(name: &str, outcome: &Result<ImportReport, String>) -> (r: OperatorReport)
    ensures
        r@ == match *outcome {
            Ok(report) => report@.report("install-seed"@).and("seed"@, ValueModel::Text(name@)),
            Err(e) => ReportModel::of("install-seed"@).and("seed"@, ValueModel::Text(name@)).and(
                "status"@,
                ValueModel::Text("failed"@),
            ).and("error"@, ValueModel::Text(e@)),
        },
{
    match outcome {
        Ok(report) => report.into_operator_report("install-seed").with_text("seed", name),
        Err(e) => OperatorReport::new("install-seed").with_text("seed", name).with_text(
            "status",
            "failed",
        ).with_text("error", e),
    }
}

} // verus!
