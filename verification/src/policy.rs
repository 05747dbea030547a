//! Versioned, reproducible evidence qualification and promotion policy.
//!
//! Evidence is qualified and the decision is made over whole numbers. Ratios of
//! counts are compared with the policy's thresholds by the caller, who hands the
//! findings to [`evaluate_promotion`].

use crate::artifact::CapabilityTier;
use crate::text;
use vstd::prelude::*;
use vstd::relations::*;
use vstd::seq_lib::*;
use vstd::string::*;

verus! {

/// How one direct invocation ended.
#[derive(Debug, Clone, Copy, PartialEq, Eq, Structural)]
pub enum DirectOutcome {
    Success,
    Throw,
    Timeout,
    Oom,
    CapabilityDenied,
}

impl DirectOutcome {
    pub open spec fn spec_severity(self) -> u8 {
        match self {
            DirectOutcome::Success => 0,
            DirectOutcome::Throw => 1,
            DirectOutcome::Timeout => 2,
            DirectOutcome::Oom => 3,
            DirectOutcome::CapabilityDenied => 4,
        }
    }

    pub fn severity(self) -> (r: u8)
        ensures
            r == self.spec_severity(),
    {
        match self {
            DirectOutcome::Success => 0,
            DirectOutcome::Throw => 1,
            DirectOutcome::Timeout => 2,
            DirectOutcome::Oom => 3,
            DirectOutcome::CapabilityDenied => 4,
        }
    }

    pub fn is_error(self) -> (r: bool)
        ensures
            r == (self != DirectOutcome::Success),
    {
        self != DirectOutcome::Success
    }

    pub open spec fn severe(self) -> bool {
        self is Timeout || self is Oom || self is CapabilityDenied
    }

    pub fn is_severe(self) -> (r: bool)
        ensures
            r == self.severe(),
    {
        match self {
            DirectOutcome::Timeout | DirectOutcome::Oom | DirectOutcome::CapabilityDenied => true,
            _ => false,
        }
    }
}

/// One recorded invocation of a skill.
#[derive(Debug, Clone, PartialEq, Eq)]
pub struct InvocationEvidence {
    pub invocation_id: String,
    pub skill_id: String,
    pub turn_id: String,
    pub outcome: DirectOutcome,
    pub latency_us: u64,
    pub production: bool,
    pub observability_complete: bool,
    pub created_at: i64,
}

/// The contents of an [`InvocationEvidence`].
#[verifier::ext_equal]
pub struct InvocationModel {
    pub invocation_id: Seq<char>,
    pub skill_id: Seq<char>,
    pub turn_id: Seq<char>,
    pub outcome: DirectOutcome,
    pub latency_us: u64,
    pub production: bool,
    pub observability_complete: bool,
    pub created_at: i64,
}

impl View for InvocationEvidence {
    type V = InvocationModel;

    open spec fn view(&self) -> InvocationModel {
        InvocationModel {
            invocation_id: self.invocation_id@,
            skill_id: self.skill_id@,
            turn_id: self.turn_id@,
            outcome: self.outcome,
            latency_us: self.latency_us,
            production: self.production,
            observability_complete: self.observability_complete,
            created_at: self.created_at,
        }
    }
}

pub open spec fn invocation_views(s: Seq<InvocationEvidence>) -> Seq<InvocationModel> {
    s.map_values(|e: InvocationEvidence| e@)
}

/// The whole-number part of a promotion policy.
#[derive(Debug, Clone, PartialEq, Eq)]
pub struct PromotionPolicy {
    pub version: String,
    pub min_distinct_turns: usize,
    pub absolute_p95_latency_us: u64,
    pub window_start: i64,
    pub window_end: i64,
    /// The error rate, non-inferiority and latency ratio thresholds of the policy
    /// are within their ranges.
    pub thresholds_in_range: bool,
}

impl PromotionPolicy {
    /// The conservative limits: twenty-five turns and five seconds.
    pub fn conservative(version: String, window_start: i64, window_end: i64) -> (r: PromotionPolicy)
        ensures
            r == (PromotionPolicy {
                version,
                min_distinct_turns: 25,
                absolute_p95_latency_us: 5_000_000,
                window_start,
                window_end,
                thresholds_in_range: true,
            }),
    {
        PromotionPolicy {
            version,
            min_distinct_turns: 25,
            absolute_p95_latency_us: 5_000_000,
            window_start,
            window_end,
            thresholds_in_range: true,
        }
    }

    pub open spec fn valid(self) -> bool {
        &&& self.version@.len() > 0
        &&& self.min_distinct_turns > 0
        &&& self.thresholds_in_range
        &&& self.absolute_p95_latency_us > 0
        &&& self.window_start <= self.window_end
    }

    pub fn validate(&self) -> (r: Result<(), PolicyError>)
        ensures
            r is Ok <==> self.valid(),
            r matches Err(e) ==> e == PolicyError::InvalidConfiguration,
    {
        if self.version.as_str().is_empty() || self.min_distinct_turns == 0
            || !self.thresholds_in_range || self.absolute_p95_latency_us == 0 || self.window_start
            > self.window_end {
            return Err(PolicyError::InvalidConfiguration);
        }
        Ok(())
    }

    /// An event counts: it is of the skill, from production, completely observed
    /// and inside the window.
    pub open spec fn counts(self, skill_id: Seq<char>, event: InvocationModel) -> bool {
        &&& event.skill_id == skill_id
        &&& event.production
        &&& event.observability_complete
        &&& self.window_start <= event.created_at <= self.window_end
    }
}

/// What is known of a candidate beside its invocations.
#[derive(Debug, Clone, PartialEq, Eq)]
pub struct PromotionContext {
    pub candidate_id: String,
    pub predecessor_id: Option<String>,
    pub capability_tier: CapabilityTier,
    pub capability_increased: bool,
    pub inherited_tests_passed: bool,
    pub held_out_tests_passed: bool,
    pub unresolved_negative_feedback: bool,
    pub identity_valid: bool,
    pub row_version_current: bool,
    pub generation_current: bool,
}

#[derive(Debug, Clone, Copy, PartialEq, Eq, Structural)]
pub enum PromotionDecision {
    Promote,
    Hold,
    HumanReview,
}

/// Counts over one evidence unit per turn.
#[derive(Debug, Clone, Copy, PartialEq, Eq, Structural)]
pub struct QualifiedStatistics {
    pub distinct_turns: usize,
    pub successes: usize,
    pub failures: usize,
    pub p95_latency_us: u64,
    pub severe_faults: usize,
}

/// What the comparisons of ratios found.
#[derive(Debug, Clone, Copy, PartialEq, Eq, Structural)]
pub struct RateFindings {
    /// The candidate's share of failures reaches the policy's limit.
    pub error_rate_too_high: bool,
    /// The candidate's upper confidence bound exceeds the predecessor's by more
    /// than the margin.
    pub confidence_failed: bool,
    /// The candidate's latency exceeds the predecessor's by more than the ratio.
    pub relative_latency_exceeded: bool,
}

#[derive(Debug, Clone, Copy, PartialEq, Eq, Structural)]
pub enum PolicyError {
    InvalidConfiguration,
    InvocationConflict,
}

impl PolicyError {
    pub fn message(&self) -> (r: &'static str)
        ensures
            r@ == match *self {
                PolicyError::InvalidConfiguration => "invalid promotion policy configuration"@,
                PolicyError::InvocationConflict => "evidence contains an invocation ID conflict"@,
            },
    {
        match self {
            PolicyError::InvalidConfiguration => "invalid promotion policy configuration",
            PolicyError::InvocationConflict => "evidence contains an invocation ID conflict",
        }
    }
}

/// The verdict on a promotion.
#[derive(Debug, Clone, PartialEq, Eq)]
pub struct PromotionEvaluation {
    pub policy_version: String,
    pub candidate_id: String,
    pub predecessor_id: Option<String>,
    pub candidate: QualifiedStatistics,
    pub predecessor: Option<QualifiedStatistics>,
    pub decision: PromotionDecision,
    pub reasons: Vec<String>,
}

/// The evidence unit of one turn: its worst outcome, and the highest latency that
/// came with that outcome.
#[verifier::ext_equal]
pub struct TurnUnit {
    pub turn_id: Seq<char>,
    pub outcome: DirectOutcome,
    pub latency_us: u64,
}

/// One outcome is worse than another, or as bad and slower.
pub open spec fn worse(a: DirectOutcome, a_us: u64, b: DirectOutcome, b_us: u64) -> bool {
    a.spec_severity() > b.spec_severity() || (a == b && a_us > b_us)
}

pub open spec fn unit_of_turn(turn_id: Seq<char>) -> spec_fn(TurnUnit) -> bool {
    |u: TurnUnit| u.turn_id == turn_id
}

/// The units with one more event taken in.
pub open spec fn with_event(units: Seq<TurnUnit>, event: InvocationModel) -> Seq<TurnUnit> {
    let unit = TurnUnit {
        turn_id: event.turn_id,
        outcome: event.outcome,
        latency_us: event.latency_us,
    };
    match crate::store::position(units, unit_of_turn(event.turn_id)) {
        None => units.push(unit),
        Some(i) => if worse(event.outcome, event.latency_us, units[i].outcome, units[i].latency_us) {
            units.update(i, unit)
        } else {
            units
        },
    }
}

/// One unit for each turn that has an event that counts, in the order in which the
/// turns first occur.
pub open spec fn turn_units(
    policy: PromotionPolicy,
    skill_id: Seq<char>,
    events: Seq<InvocationModel>,
) -> Seq<TurnUnit>
    decreases events.len(),
{
    if events.len() == 0 {
        Seq::empty()
    } else {
        let before = turn_units(policy, skill_id, events.drop_last());
        if policy.counts(skill_id, events.last()) {
            with_event(before, events.last())
        } else {
            before
        }
    }
}

/// Two events that count share an invocation id and differ.
pub open spec fn invocation_conflict(
    policy: PromotionPolicy,
    skill_id: Seq<char>,
    events: Seq<InvocationModel>,
) -> bool {
    exists|i: int, j: int|
        0 <= i < j < events.len() && policy.counts(skill_id, #[trigger] events[i])
            && policy.counts(skill_id, #[trigger] events[j]) && events[i].invocation_id
            == events[j].invocation_id && events[i] != events[j]
}

pub open spec fn is_failure() -> spec_fn(TurnUnit) -> bool {
    |u: TurnUnit| u.outcome != DirectOutcome::Success
}

pub open spec fn is_severe_unit() -> spec_fn(TurnUnit) -> bool {
    |u: TurnUnit| u.outcome.severe()
}

/// How many items satisfy `p`.
pub open spec fn count<A>(s: Seq<A>, p: spec_fn(A) -> bool) -> nat
    decreases s.len(),
{
    if s.len() == 0 {
        0
    } else {
        count(s.drop_last(), p) + if p(s.last()) {
            1nat
        } else {
            0nat
        }
    }
}

pub open spec fn ascending() -> spec_fn(u64, u64) -> bool {
    |a: u64, b: u64| a <= b
}

/// The value of the nearest rank: the least one that at least `percentile` percent
/// of the values do not exceed.
pub open spec fn percentile_of(sorted: Seq<u64>, percentile: u32) -> Option<u64> {
    if sorted.len() == 0 || percentile == 0 || percentile > 100 {
        None
    } else {
        Some(sorted[(percentile * sorted.len() + 99) / 100 - 1])
    }
}

/// The statistics of a list of units.
pub open spec fn statistics_of(units: Seq<TurnUnit>) -> QualifiedStatistics {
    let failures = count(units, is_failure());
    let latencies = units.map_values(|u: TurnUnit| u.latency_us).sort_by(ascending());
    QualifiedStatistics {
        distinct_turns: units.len() as usize,
        successes: (units.len() - failures) as usize,
        failures: failures as usize,
        p95_latency_us: match percentile_of(latencies, 95) {
            Some(us) => us,
            None => 0,
        },
        severe_faults: count(units, is_severe_unit()) as usize,
    }
}

struct UnitRow {
    turn_id: String,
    outcome: DirectOutcome,
    latency_us: u64,
}

impl View for UnitRow {
    type V = TurnUnit;

    closed spec fn view(&self) -> TurnUnit {
        TurnUnit { turn_id: self.turn_id@, outcome: self.outcome, latency_us: self.latency_us }
    }
}

spec fn unit_views(s: Seq<UnitRow>) -> Seq<TurnUnit> {
    s.map_values(|u: UnitRow| u@)
}

fn same_event(a: &InvocationEvidence, b: &InvocationEvidence) -> (r: bool)
    ensures
        r == (a@ == b@),
{
    text::same(&a.invocation_id, &b.invocation_id) && text::same(&a.skill_id, &b.skill_id)
        && text::same(&a.turn_id, &b.turn_id) && a.outcome == b.outcome && a.latency_us
        == b.latency_us && a.production == b.production && a.observability_complete
        == b.observability_complete && a.created_at == b.created_at
}

fn event_counts(policy: &PromotionPolicy, skill_id: &str, event: &InvocationEvidence) -> (r: bool)
    ensures
        r == policy.counts(skill_id@, event@),
{
    text::same(&event.skill_id, skill_id) && event.production && event.observability_complete
        && event.created_at >= policy.window_start && event.created_at <= policy.window_end
}

fn take_event(units: &mut Vec<UnitRow>, event: &InvocationEvidence)
    ensures
        unit_views(final(units)@) == with_event(unit_views(old(units)@), event@),
{
    let ghost before = unit_views(units@);
    let ghost p = unit_of_turn(event.turn_id@);
    let mut i: usize = 0;
    while i < units.len()
        invariant
            i <= units@.len(),
            before == unit_views(units@),
            before == unit_views(old(units)@),
            p == unit_of_turn(event.turn_id@),
            forall|j: int| 0 <= j < i ==> !p(#[trigger] before[j]),
        decreases units@.len() - i,
    {
        assert(before[i as int] == units@[i as int]@);
        if text::same(&units[i].turn_id, &event.turn_id) {
            proof {
                crate::store::lemma_position_found(before, p, i as int);
            }
            let current = &units[i];
            if event.outcome.severity() > current.outcome.severity() || (event.outcome
                == current.outcome && event.latency_us > current.latency_us) {
                let unit = UnitRow {
                    turn_id: event.turn_id.clone(),
                    outcome: event.outcome,
                    latency_us: event.latency_us,
                };
                units[i] = unit;
                assert(unit_views(units@) =~= before.update(i as int, unit@));
            }
            return;
        }
        i = i + 1;
    }
    proof {
        crate::store::lemma_position_missing(before, p);
    }
    let unit = UnitRow {
        turn_id: event.turn_id.clone(),
        outcome: event.outcome,
        latency_us: event.latency_us,
    };
    units.push(unit);
    assert(unit_views(units@) =~= before.push(unit@));
}

/// Sorts numbers in ascending order.
pub fn sort_numbers(v: &Vec<u64>) -> (r: Vec<u64>)
    ensures
        r@ == v@.sort_by(ascending()),
        r@.len() == v@.len(),
{
    let mut out: Vec<u64> = Vec::new();
    let mut i: usize = 0;
    proof {
        assert(out@ =~= v@.take(0));
    }
    while i < v.len()
        invariant
            i <= v@.len(),
            out@.len() == i,
            sorted_by(out@, ascending()),
            out@.to_multiset() == v@.take(i as int).to_multiset(),
        decreases v@.len() - i,
    {
        let item: u64 = v[i];
        let mut at: usize = 0;
        while at < out.len() && out[at] <= item
            invariant
                at <= out@.len(),
                forall|j: int| 0 <= j < at ==> #[trigger] out@[j] <= item,
            decreases out@.len() - at,
        {
            at = at + 1;
        }
        let ghost before = out@;
        out.insert(at, item);
        proof {
            let leq = ascending();
            assert forall|p: int, q: int| 0 <= p < q < out@.len() implies #[trigger] leq(
                out@[p],
                out@[q],
            ) by {
                let pp = if p < at {
                    p
                } else {
                    p - 1
                };
                let qq = if q < at {
                    q
                } else {
                    q - 1
                };
                if p != at && q != at {
                    assert(leq(before[pp], before[qq]));
                } else if p == at && q - 1 > at {
                    assert(leq(before[at as int], before[q - 1]));
                }
            }
            text::lemma_insert_multiset(before, at as int, item);
            assert(v@.take(i + 1) =~= v@.take(i as int).push(v@[i as int]));
            broadcast use vstd::seq_lib::group_to_multiset_ensures;

        }
        i = i + 1;
    }
    proof {
        assert(v@.take(v@.len() as int) =~= v@);
        v@.lemma_sort_by_ensures(ascending());
        lemma_sorted_unique(out@, v@.sort_by(ascending()), ascending());
    }
    out
}

/// The value of the nearest rank in a sorted list.
pub fn nearest_rank_percentile(sorted_values: &[u64], percentile: u32) -> (r: Option<u64>)
    ensures
        r == percentile_of(sorted_values@, percentile),
{
    if sorted_values.len() == 0 || percentile == 0 || percentile > 100 {
        return None;
    }
    let n: u128 = sorted_values.len() as u128;
    let p: u128 = percentile as u128;
    proof {
        assert(1 * 1 <= p * n <= 100 * n) by (nonlinear_arith)
            requires
                1 <= p <= 100,
                1 <= n,
        ;
    }
    let rank: u128 = (p * n + 99) / 100;
    assert(1 <= rank <= n);
    Some(sorted_values[(rank - 1) as usize])
}

/// Qualifies the events of one skill: one conservative evidence unit per turn, with
/// the worst outcome of the turn. Repeated identical records count once; records
/// that share an invocation id and differ are a conflict.
pub fn qualify(
    policy: &PromotionPolicy,
    skill_id: &str,
    events: &Vec<InvocationEvidence>,
) -> (r: Result<QualifiedStatistics, PolicyError>)
    ensures
        match r {
            Ok(statistics) => {
                &&& !invocation_conflict(*policy, skill_id@, invocation_views(events@))
                &&& statistics == statistics_of(
                    turn_units(*policy, skill_id@, invocation_views(events@)),
                )
            },
            Err(e) => {
                &&& invocation_conflict(*policy, skill_id@, invocation_views(events@))
                &&& e == PolicyError::InvocationConflict
            },
        },
{
    let ghost all = invocation_views(events@);
    let mut units: Vec<UnitRow> = Vec::new();
    let mut i: usize = 0;
    proof {
        assert(unit_views(units@) =~= turn_units(*policy, skill_id@, all.take(0)));
    }
    while i < events.len()
        invariant
            i <= events@.len(),
            all == invocation_views(events@),
            unit_views(units@) == turn_units(*policy, skill_id@, all.take(i as int)),
            forall|p: int, q: int|
                0 <= p < q < i && policy.counts(skill_id@, #[trigger] all[p]) && policy.counts(
                    skill_id@,
                    #[trigger] all[q],
                ) && all[p].invocation_id == all[q].invocation_id ==> all[p] == all[q],
        decreases events@.len() - i,
    {
        assert(all[i as int] == events@[i as int]@);
        assert(all.take(i + 1).drop_last() =~= all.take(i as int));
        assert(all.take(i + 1).last() == all[i as int]);
        if event_counts(policy, skill_id, &events[i]) {
            let mut j: usize = 0;
            while j < i
                invariant
                    j <= i < events@.len(),
                    all == invocation_views(events@),
                    policy.counts(skill_id@, all[i as int]),
                    forall|p: int|
                        0 <= p < j && policy.counts(skill_id@, #[trigger] all[p])
                            && all[p].invocation_id == all[i as int].invocation_id ==> all[p]
                            == all[i as int],
                decreases i - j,
            {
                assert(all[j as int] == events@[j as int]@);
                assert(all[i as int] == events@[i as int]@);
                if event_counts(policy, skill_id, &events[j]) && text::same(
                    &events[j].invocation_id,
                    &events[i].invocation_id,
                ) && !same_event(&events[j], &events[i]) {
                    assert(policy.counts(skill_id@, all[j as int]));
                    return Err(PolicyError::InvocationConflict);
                }
                j = j + 1;
            }
            take_event(&mut units, &events[i]);
        }
        i = i + 1;
    }
    assert(all.take(all.len() as int) =~= all);
    let ghost found = unit_views(units@);
    let mut failures: usize = 0;
    let mut severe_faults: usize = 0;
    let mut latencies: Vec<u64> = Vec::new();
    let ghost wanted = found.map_values(|u: TurnUnit| u.latency_us);
    let mut k: usize = 0;
    proof {
        assert(found.take(0).len() == 0);
    }
    while k < units.len()
        invariant
            k <= units@.len(),
            found == unit_views(units@),
            wanted == found.map_values(|u: TurnUnit| u.latency_us),
            failures == count(found.take(k as int), is_failure()),
            severe_faults == count(found.take(k as int), is_severe_unit()),
            failures <= k,
            severe_faults <= k,
            latencies@ =~= wanted.take(k as int),
        decreases units@.len() - k,
    {
        assert(found[k as int] == units@[k as int]@);
        assert(found.take(k + 1).drop_last() =~= found.take(k as int));
        assert(found.take(k + 1).last() == found[k as int]);
        if units[k].outcome.is_error() {
            failures = failures + 1;
        }
        if units[k].outcome.is_severe() {
            severe_faults = severe_faults + 1;
        }
        latencies.push(units[k].latency_us);
        k = k + 1;
    }
    assert(found.take(found.len() as int) =~= found);
    assert(wanted.take(wanted.len() as int) =~= wanted);
    let sorted = sort_numbers(&latencies);
    let p95_latency_us: u64 = match nearest_rank_percentile(&sorted, 95) {
        Some(us) => us,
        None => 0,
    };
    Ok(
        QualifiedStatistics {
            distinct_turns: units.len(),
            successes: units.len() - failures,
            failures,
            p95_latency_us,
            severe_faults,
        },
    )
}

/// The reasons that send a promotion to a human.
pub open spec fn review_reasons(context: PromotionContext) -> Seq<Seq<char>> {
    reason_if(context.predecessor_id is None, "lineage_root_requires_second_human_activation"@)
        + reason_if(
            context.capability_tier == CapabilityTier::SideEffecting || context.capability_increased,
            "capability_requires_human_review"@,
        )
}

/// The reasons in the context that hold a promotion.
pub open spec fn context_holds(context: PromotionContext) -> Seq<Seq<char>> {
    reason_if(
        !context.identity_valid || !context.row_version_current || !context.generation_current,
        "stale_or_invalid_artifact"@,
    )
        + reason_if(
            !context.inherited_tests_passed || !context.held_out_tests_passed,
            "regression_gate_failed"@,
        )
        + reason_if(context.unresolved_negative_feedback, "unresolved_targeted_negative_feedback"@)
}

/// The reasons in the evidence that hold a promotion. A lineage root has no
/// predecessor and needs no replacement metrics.
pub open spec fn evidence_holds(
    policy: PromotionPolicy,
    context: PromotionContext,
    candidate: QualifiedStatistics,
    predecessor: Option<QualifiedStatistics>,
    rates: RateFindings,
) -> Seq<Seq<char>> {
    if context.predecessor_id is None {
        seq![]
    } else {
        reason_if(
            candidate.distinct_turns < policy.min_distinct_turns,
            "insufficient_distinct_turns"@,
        )
            + reason_if(rates.error_rate_too_high, "observed_error_rate_too_high"@)
            + reason_if(candidate.severe_faults > 0, "severe_fault"@)
            + reason_if(
                candidate.p95_latency_us > policy.absolute_p95_latency_us,
                "absolute_latency_budget_exceeded"@,
            )
            + match predecessor {
            Some(previous) => if previous.distinct_turns >= policy.min_distinct_turns {
                reason_if(rates.confidence_failed, "non_inferiority_confidence_failed"@)
                    + reason_if(
                        rates.relative_latency_exceeded,
                        "relative_latency_budget_exceeded"@,
                    )
            } else {
                reason_if(true, "sparse_predecessor_evidence"@)
            },
            None => seq![],
        }
    }
}

/// Every reason against an automatic promotion, in the order of the gates.
pub open spec fn promotion_reasons(
    policy: PromotionPolicy,
    context: PromotionContext,
    candidate: QualifiedStatistics,
    predecessor: Option<QualifiedStatistics>,
    rates: RateFindings,
) -> Seq<Seq<char>> {
    review_reasons(context) + context_holds(context) + evidence_holds(
        policy,
        context,
        candidate,
        predecessor,
        rates,
    )
}

/// A reason to hold outweighs a reason to ask a human; without either the
/// candidate is promoted.
pub open spec fn promotion_decision(
    policy: PromotionPolicy,
    context: PromotionContext,
    candidate: QualifiedStatistics,
    predecessor: Option<QualifiedStatistics>,
    rates: RateFindings,
) -> PromotionDecision {
    if context_holds(context).len() > 0 || evidence_holds(
        policy,
        context,
        candidate,
        predecessor,
        rates,
    ).len() > 0 {
        PromotionDecision::Hold
    } else if review_reasons(context).len() > 0 {
        PromotionDecision::HumanReview
    } else {
        PromotionDecision::Promote
    }
}

/// A list that holds a reason where it applies.
pub open spec fn reason_if(applies: bool, reason: Seq<char>) -> Seq<Seq<char>> {
    if applies {
        seq![reason]
    } else {
        seq![]
    }
}

fn give_reason(reasons: &mut Vec<String>, applies: bool, reason: &str)
    ensures
        text::views(final(reasons)@) == text::views(old(reasons)@) + reason_if(applies, reason@),
{
    let ghost before = text::views(reasons@);
    if applies {
        reasons.push(reason.to_owned());
    }
    assert(text::views(reasons@) =~= before + reason_if(applies, reason@));
}

fn no_reasons() -> (r: Vec<String>)
    ensures
        text::views(r@) == Seq::<Seq<char>>::empty(),
{
    let r: Vec<String> = Vec::new();
    assert(text::views(r@) =~= Seq::empty());
    r
}

proof fn lemma_first_reason(a: Seq<Seq<char>>)
    ensures
        Seq::<Seq<char>>::empty() + a == a,
{
    assert(Seq::<Seq<char>>::empty() + a =~= a);
}

fn find_review_reasons(context: &PromotionContext) -> (r: Vec<String>)
    ensures
        text::views(r@) == review_reasons(*context),
{
    let mut reasons = no_reasons();
    let lineage_root = context.predecessor_id.is_none();
    give_reason(&mut reasons, lineage_root, "lineage_root_requires_second_human_activation");
    proof {
        lemma_first_reason(text::views(reasons@));
        lemma_first_reason(
            reason_if(lineage_root, "lineage_root_requires_second_human_activation"@),
        );
    }
    let effects = context.capability_tier == CapabilityTier::SideEffecting
        || context.capability_increased;
    give_reason(&mut reasons, effects, "capability_requires_human_review");
    reasons
}

fn find_context_holds(context: &PromotionContext) -> (r: Vec<String>)
    ensures
        text::views(r@) == context_holds(*context),
{
    let mut reasons = no_reasons();
    let stale = !context.identity_valid || !context.row_version_current
        || !context.generation_current;
    give_reason(&mut reasons, stale, "stale_or_invalid_artifact");
    proof {
        lemma_first_reason(reason_if(stale, "stale_or_invalid_artifact"@));
    }
    let regressed = !context.inherited_tests_passed || !context.held_out_tests_passed;
    give_reason(&mut reasons, regressed, "regression_gate_failed");
    give_reason(
        &mut reasons,
        context.unresolved_negative_feedback,
        "unresolved_targeted_negative_feedback",
    );
    reasons
}

fn find_evidence_holds(
    policy: &PromotionPolicy,
    context: &PromotionContext,
    candidate: &QualifiedStatistics,
    predecessor: &Option<QualifiedStatistics>,
    rates: &RateFindings,
) -> (r: Vec<String>)
    ensures
        text::views(r@) == evidence_holds(*policy, *context, *candidate, *predecessor, *rates),
{
    let mut reasons = no_reasons();
    if context.predecessor_id.is_none() {
        return reasons;
    }
    let few = candidate.distinct_turns < policy.min_distinct_turns;
    give_reason(&mut reasons, few, "insufficient_distinct_turns");
    proof {
        lemma_first_reason(reason_if(few, "insufficient_distinct_turns"@));
    }
    give_reason(&mut reasons, rates.error_rate_too_high, "observed_error_rate_too_high");
    give_reason(&mut reasons, candidate.severe_faults > 0, "severe_fault");
    give_reason(
        &mut reasons,
        candidate.p95_latency_us > policy.absolute_p95_latency_us,
        "absolute_latency_budget_exceeded",
    );
    let mut compared = no_reasons();
    match predecessor {
        Some(previous) => {
            if previous.distinct_turns >= policy.min_distinct_turns {
                give_reason(
                    &mut compared,
                    rates.confidence_failed,
                    "non_inferiority_confidence_failed",
                );
                proof {
                    lemma_first_reason(
                        reason_if(rates.confidence_failed, "non_inferiority_confidence_failed"@),
                    );
                }
                give_reason(
                    &mut compared,
                    rates.relative_latency_exceeded,
                    "relative_latency_budget_exceeded",
                );
            } else {
                give_reason(&mut compared, true, "sparse_predecessor_evidence");
                proof {
                    lemma_first_reason(reason_if(true, "sparse_predecessor_evidence"@));
                }
            }
        },
        None => {},
    }
    add_reasons(&mut reasons, compared);
    reasons
}

fn add_reasons(reasons: &mut Vec<String>, more: Vec<String>)
    ensures
        text::views(final(reasons)@) == text::views(old(reasons)@) + text::views(more@),
{
    let ghost before = text::views(reasons@);
    let mut more = more;
    let ghost added = text::views(more@);
    reasons.append(&mut more);
    assert(text::views(reasons@) =~= before + added);
}

/// Decides on a promotion from qualified statistics and the findings on ratios.
pub fn decide_promotion(
    policy: &PromotionPolicy,
    context: &PromotionContext,
    candidate: QualifiedStatistics,
    predecessor: Option<QualifiedStatistics>,
    rates: RateFindings,
) -> (r: Result<PromotionEvaluation, PolicyError>)
    ensures
        match r {
            Ok(v) => {
                &&& policy.valid()
                &&& v.policy_version == policy.version
                &&& v.candidate_id == context.candidate_id
                &&& v.predecessor_id == context.predecessor_id
                &&& v.candidate == candidate
                &&& v.predecessor == predecessor
                &&& v.decision == promotion_decision(
                    *policy,
                    *context,
                    candidate,
                    predecessor,
                    rates,
                )
                &&& text::views(v.reasons@) == promotion_reasons(
                    *policy,
                    *context,
                    candidate,
                    predecessor,
                    rates,
                )
            },
            Err(e) => !policy.valid() && e == PolicyError::InvalidConfiguration,
        },
{
    match policy.validate() {
        Ok(()) => {},
        Err(e) => {
            return Err(e);
        },
    }
    let mut reasons = find_review_reasons(context);
    let review = reasons.len() > 0;
    let context_reasons = find_context_holds(context);
    let evidence_reasons = find_evidence_holds(policy, context, &candidate, &predecessor, &rates);
    let hold = context_reasons.len() > 0 || evidence_reasons.len() > 0;
    proof {
        assert(text::views(reasons@).len() == reasons@.len());
        assert(text::views(context_reasons@).len() == context_reasons@.len());
        assert(text::views(evidence_reasons@).len() == evidence_reasons@.len());
    }
    add_reasons(&mut reasons, context_reasons);
    add_reasons(&mut reasons, evidence_reasons);
    let decision = if hold {
        PromotionDecision::Hold
    } else if review {
        PromotionDecision::HumanReview
    } else {
        PromotionDecision::Promote
    };
    Ok(
        PromotionEvaluation {
            policy_version: policy.version.clone(),
            candidate_id: context.candidate_id.clone(),
            predecessor_id: text::clone_opt(&context.predecessor_id),
            candidate,
            predecessor,
            decision,
            reasons,
        },
    )
}

/// The statistics of a skill's events.
pub open spec fn event_statistics(
    policy: PromotionPolicy,
    skill_id: Seq<char>,
    events: Seq<InvocationEvidence>,
) -> QualifiedStatistics {
    statistics_of(turn_units(policy, skill_id, invocation_views(events)))
}

/// The statistics of the predecessor, where there is one.
pub open spec fn predecessor_statistics(
    policy: PromotionPolicy,
    context: PromotionContext,
    events: Seq<InvocationEvidence>,
) -> Option<QualifiedStatistics> {
    match context.predecessor_id {
        Some(id) => Some(event_statistics(policy, id@, events)),
        None => None,
    }
}

/// Events that count contradict each other.
pub open spec fn evidence_conflict(
    policy: PromotionPolicy,
    context: PromotionContext,
    candidate_events: Seq<InvocationEvidence>,
    predecessor_events: Seq<InvocationEvidence>,
) -> bool {
    invocation_conflict(policy, context.candidate_id@, invocation_views(candidate_events)) || (
    context.predecessor_id matches Some(id) && invocation_conflict(
        policy,
        id@,
        invocation_views(predecessor_events),
    ))
}

/// Evaluates a promotion from the events of the candidate and of its predecessor. The
/// findings on ratios are those of their statistics.
pub fn evaluate_promotion(
    policy: &PromotionPolicy,
    context: &PromotionContext,
    candidate_events: &Vec<InvocationEvidence>,
    predecessor_events: &Vec<InvocationEvidence>,
    rates: RateFindings,
) -> (r: Result<PromotionEvaluation, PolicyError>)
    ensures
        match r {
            Ok(v) => {
                let candidate = event_statistics(
                    *policy,
                    context.candidate_id@,
                    candidate_events@,
                );
                let predecessor = predecessor_statistics(*policy, *context, predecessor_events@);
                &&& policy.valid()
                &&& !evidence_conflict(*policy, *context, candidate_events@, predecessor_events@)
                &&& v.policy_version == policy.version
                &&& v.candidate_id == context.candidate_id
                &&& v.predecessor_id == context.predecessor_id
                &&& v.candidate == candidate
                &&& v.predecessor == predecessor
                &&& v.decision == promotion_decision(
                    *policy,
                    *context,
                    candidate,
                    predecessor,
                    rates,
                )
                &&& text::views(v.reasons@) == promotion_reasons(
                    *policy,
                    *context,
                    candidate,
                    predecessor,
                    rates,
                )
            },
            Err(e) => if !policy.valid() {
                e == PolicyError::InvalidConfiguration
            } else {
                &&& evidence_conflict(*policy, *context, candidate_events@, predecessor_events@)
                &&& e == PolicyError::InvocationConflict
            },
        },
{
    match policy.validate() {
        Ok(()) => {},
        Err(e) => {
            return Err(e);
        },
    }
    let candidate = match qualify(policy, &context.candidate_id, candidate_events) {
        Ok(candidate) => candidate,
        Err(e) => {
            return Err(e);
        },
    };
    let predecessor = match &context.predecessor_id {
        None => None,
        Some(id) => match qualify(policy, id, predecessor_events) {
            Ok(predecessor) => Some(predecessor),
            Err(e) => {
                return Err(e);
            },
        },
    };
    decide_promotion(policy, context, candidate, predecessor, rates)
}

/// A candidate is promoted automatically exactly where no gate gives a reason.
pub proof fn law_promotion_needs_every_gate(
    policy: PromotionPolicy,
    context: PromotionContext,
    candidate: QualifiedStatistics,
    predecessor: Option<QualifiedStatistics>,
    rates: RateFindings,
)
    ensures
        promotion_decision(policy, context, candidate, predecessor, rates)
            == PromotionDecision::Promote <==> promotion_reasons(
            policy,
            context,
            candidate,
            predecessor,
            rates,
        ).len() == 0,
{
}

proof fn lemma_listed(a: Seq<Seq<char>>, applies: bool, reason: Seq<char>, x: Seq<char>)
    ensures
        (a + reason_if(applies, reason)).contains(x) <==> a.contains(x) || (applies && x == reason),
{
    let b = reason_if(applies, reason);
    let all = a + b;
    if a.contains(x) {
        let i = a.index_of(x);
        assert(all[i] == x);
    }
    if applies && x == reason {
        assert(all[a.len() as int] == x);
    }
    if all.contains(x) {
        let i = all.index_of(x);
        if i < a.len() {
            assert(a[i] == x);
        } else {
            assert(b[i - a.len()] == x);
        }
    }
}

/// The names of the gates are told apart.
proof fn lemma_gate_names_differ()
    ensures
        seq![
            "lineage_root_requires_second_human_activation"@,
            "capability_requires_human_review"@,
            "stale_or_invalid_artifact"@,
            "regression_gate_failed"@,
            "unresolved_targeted_negative_feedback"@,
            "insufficient_distinct_turns"@,
            "observed_error_rate_too_high"@,
            "severe_fault"@,
            "absolute_latency_budget_exceeded"@,
            "non_inferiority_confidence_failed"@,
            "relative_latency_budget_exceeded"@,
            "sparse_predecessor_evidence"@,
        ].no_duplicates(),
{
    reveal_strlit("lineage_root_requires_second_human_activation");
    reveal_strlit("capability_requires_human_review");
    reveal_strlit("stale_or_invalid_artifact");
    reveal_strlit("regression_gate_failed");
    reveal_strlit("unresolved_targeted_negative_feedback");
    reveal_strlit("insufficient_distinct_turns");
    reveal_strlit("observed_error_rate_too_high");
    reveal_strlit("severe_fault");
    reveal_strlit("absolute_latency_budget_exceeded");
    reveal_strlit("non_inferiority_confidence_failed");
    reveal_strlit("relative_latency_budget_exceeded");
    reveal_strlit("sparse_predecessor_evidence");
    assert("lineage_root_requires_second_human_activation"@.len() == 45);
    assert("capability_requires_human_review"@.len() == 32);
    assert("stale_or_invalid_artifact"@.len() == 25);
    assert("regression_gate_failed"@.len() == 22);
    assert("unresolved_targeted_negative_feedback"@.len() == 37);
    assert("insufficient_distinct_turns"@.len() == 27);
    assert("observed_error_rate_too_high"@.len() == 28);
    assert("severe_fault"@.len() == 12);
    assert("absolute_latency_budget_exceeded"@.len() == 32);
    assert("non_inferiority_confidence_failed"@.len() == 33);
    assert("relative_latency_budget_exceeded"@.len() == 32);
    assert("sparse_predecessor_evidence"@.len() == 27);
    assert("capability_requires_human_review"@[0] == 'c');
    assert("absolute_latency_budget_exceeded"@[0] == 'a');
    assert("relative_latency_budget_exceeded"@[0] == 'r');
    assert("insufficient_distinct_turns"@[0] == 'i');
    assert("sparse_predecessor_evidence"@[0] == 's');
}

proof fn lemma_reasons_listed(
    policy: PromotionPolicy,
    context: PromotionContext,
    candidate: QualifiedStatistics,
    predecessor: Option<QualifiedStatistics>,
    rates: RateFindings,
    x: Seq<char>,
)
    ensures
        promotion_reasons(policy, context, candidate, predecessor, rates).contains(x)
            <==> review_reasons(context).contains(x) || context_holds(context).contains(x)
            || evidence_holds(policy, context, candidate, predecessor, rates).contains(x),
        context_holds(context).contains(x) ==> context_holds(context).len() > 0,
        evidence_holds(policy, context, candidate, predecessor, rates).contains(x)
            ==> evidence_holds(policy, context, candidate, predecessor, rates).len() > 0,
{
    let a = review_reasons(context);
    let b = context_holds(context);
    let c = evidence_holds(policy, context, candidate, predecessor, rates);
    let all = promotion_reasons(policy, context, candidate, predecessor, rates);
    assert(all =~= a + b + c);
    if a.contains(x) {
        assert(all[a.index_of(x)] == x);
    }
    if b.contains(x) {
        assert(all[a.len() + b.index_of(x)] == x);
    }
    if c.contains(x) {
        assert(all[a.len() + b.len() + c.index_of(x)] == x);
    }
    if all.contains(x) {
        let i = all.index_of(x);
        if i < a.len() {
            assert(a[i] == x);
        } else if i < a.len() + b.len() {
            assert(b[i - a.len()] == x);
        } else {
            assert(c[i - a.len() - b.len()] == x);
        }
    }
}

proof fn lemma_context_listed(context: PromotionContext, x: Seq<char>)
    ensures
        context_holds(context).contains(x) <==> {
            ||| x == "stale_or_invalid_artifact"@ && !(context.identity_valid
                && context.row_version_current && context.generation_current)
            ||| x == "regression_gate_failed"@ && !(context.inherited_tests_passed
                && context.held_out_tests_passed)
            ||| x == "unresolved_targeted_negative_feedback"@
                && context.unresolved_negative_feedback
        },
        review_reasons(context).contains(x) <==> {
            ||| x == "lineage_root_requires_second_human_activation"@
                && context.predecessor_id is None
            ||| x == "capability_requires_human_review"@ && (context.capability_tier
                is SideEffecting || context.capability_increased)
        },
{
    let none = Seq::<Seq<char>>::empty();
    let stale = !(context.identity_valid && context.row_version_current
        && context.generation_current);
    let regressed = !(context.inherited_tests_passed && context.held_out_tests_passed);
    let a = none + reason_if(stale, "stale_or_invalid_artifact"@);
    let b = a + reason_if(regressed, "regression_gate_failed"@);
    let c = b + reason_if(
        context.unresolved_negative_feedback,
        "unresolved_targeted_negative_feedback"@,
    );
    lemma_listed(none, stale, "stale_or_invalid_artifact"@, x);
    lemma_listed(a, regressed, "regression_gate_failed"@, x);
    lemma_listed(
        b,
        context.unresolved_negative_feedback,
        "unresolved_targeted_negative_feedback"@,
        x,
    );
    assert(context_holds(context) =~= c);
    let root = context.predecessor_id is None;
    let effects = context.capability_tier is SideEffecting || context.capability_increased;
    let d = none + reason_if(root, "lineage_root_requires_second_human_activation"@);
    lemma_listed(none, root, "lineage_root_requires_second_human_activation"@, x);
    lemma_listed(d, effects, "capability_requires_human_review"@, x);
    assert(review_reasons(context) =~= d + reason_if(effects, "capability_requires_human_review"@));
}

proof fn lemma_evidence_listed(
    policy: PromotionPolicy,
    context: PromotionContext,
    candidate: QualifiedStatistics,
    predecessor: Option<QualifiedStatistics>,
    rates: RateFindings,
    x: Seq<char>,
)
    ensures
        evidence_holds(policy, context, candidate, predecessor, rates).contains(x) <==> context
            .predecessor_id is Some && {
            ||| x == "insufficient_distinct_turns"@ && candidate.distinct_turns
                < policy.min_distinct_turns
            ||| x == "observed_error_rate_too_high"@ && rates.error_rate_too_high
            ||| x == "severe_fault"@ && candidate.severe_faults > 0
            ||| x == "absolute_latency_budget_exceeded"@ && candidate.p95_latency_us
                > policy.absolute_p95_latency_us
            ||| x == "non_inferiority_confidence_failed"@ && rates.confidence_failed
                && predecessor is Some && predecessor->0.distinct_turns
                >= policy.min_distinct_turns
            ||| x == "relative_latency_budget_exceeded"@ && rates.relative_latency_exceeded
                && predecessor is Some && predecessor->0.distinct_turns
                >= policy.min_distinct_turns
            ||| x == "sparse_predecessor_evidence"@ && predecessor is Some
                && predecessor->0.distinct_turns < policy.min_distinct_turns
        },
{
    let all = evidence_holds(policy, context, candidate, predecessor, rates);
    let none = Seq::<Seq<char>>::empty();
    if context.predecessor_id is Some {
        let few = candidate.distinct_turns < policy.min_distinct_turns;
        let slow = candidate.p95_latency_us > policy.absolute_p95_latency_us;
        let a = none + reason_if(few, "insufficient_distinct_turns"@);
        let b = a + reason_if(rates.error_rate_too_high, "observed_error_rate_too_high"@);
        let c = b + reason_if(candidate.severe_faults > 0, "severe_fault"@);
        let d = c + reason_if(slow, "absolute_latency_budget_exceeded"@);
        lemma_listed(none, few, "insufficient_distinct_turns"@, x);
        lemma_listed(a, rates.error_rate_too_high, "observed_error_rate_too_high"@, x);
        lemma_listed(b, candidate.severe_faults > 0, "severe_fault"@, x);
        lemma_listed(c, slow, "absolute_latency_budget_exceeded"@, x);
        match predecessor {
            Some(previous) => if previous.distinct_turns >= policy.min_distinct_turns {
                let e = d + reason_if(
                    rates.confidence_failed,
                    "non_inferiority_confidence_failed"@,
                );
                lemma_listed(d, rates.confidence_failed, "non_inferiority_confidence_failed"@, x);
                lemma_listed(
                    e,
                    rates.relative_latency_exceeded,
                    "relative_latency_budget_exceeded"@,
                    x,
                );
                assert(all =~= e + reason_if(
                    rates.relative_latency_exceeded,
                    "relative_latency_budget_exceeded"@,
                ));
            } else {
                lemma_listed(d, true, "sparse_predecessor_evidence"@, x);
                assert(all =~= d + reason_if(true, "sparse_predecessor_evidence"@));
            },
            None => {
                assert(all =~= d);
            },
        }
    }
}

/// Every gate holds a replacement by itself, whatever the others say, and names itself
/// among the reasons exactly where it does: a stale artifact, a failed regression, open
/// negative feedback, too few turns, too many errors, any severe fault, too slow by
/// itself or against its predecessor, less certain than its predecessor, or a
/// predecessor that was seen too rarely to compare with.
pub proof fn law_each_gate_holds_by_itself(
    policy: PromotionPolicy,
    context: PromotionContext,
    candidate: QualifiedStatistics,
    predecessor: Option<QualifiedStatistics>,
    rates: RateFindings,
)
    ensures
        ({
            let decision = promotion_decision(policy, context, candidate, predecessor, rates);
            let reasons = promotion_reasons(policy, context, candidate, predecessor, rates);
            let holds = |reason: Seq<char>, applies: bool|
                (applies ==> decision == PromotionDecision::Hold) && (applies
                    <==> reasons.contains(reason));
            let replaces = context.predecessor_id is Some;
            let compared = replaces && predecessor is Some && predecessor->0.distinct_turns
                >= policy.min_distinct_turns;
            &&& holds(
                "stale_or_invalid_artifact"@,
                !context.identity_valid || !context.row_version_current
                    || !context.generation_current,
            )
            &&& holds(
                "regression_gate_failed"@,
                !context.inherited_tests_passed || !context.held_out_tests_passed,
            )
            &&& holds(
                "unresolved_targeted_negative_feedback"@,
                context.unresolved_negative_feedback,
            )
            &&& holds(
                "insufficient_distinct_turns"@,
                replaces && candidate.distinct_turns < policy.min_distinct_turns,
            )
            &&& holds("observed_error_rate_too_high"@, replaces && rates.error_rate_too_high)
            &&& holds("severe_fault"@, replaces && candidate.severe_faults > 0)
            &&& holds(
                "absolute_latency_budget_exceeded"@,
                replaces && candidate.p95_latency_us > policy.absolute_p95_latency_us,
            )
            &&& holds("non_inferiority_confidence_failed"@, compared && rates.confidence_failed)
            &&& holds(
                "relative_latency_budget_exceeded"@,
                compared && rates.relative_latency_exceeded,
            )
            &&& holds(
                "sparse_predecessor_evidence"@,
                replaces && predecessor is Some && predecessor->0.distinct_turns
                    < policy.min_distinct_turns,
            )
        }),
{
    lemma_gate_names_differ();
    let names = seq![
        "lineage_root_requires_second_human_activation"@,
        "capability_requires_human_review"@,
        "stale_or_invalid_artifact"@,
        "regression_gate_failed"@,
        "unresolved_targeted_negative_feedback"@,
        "insufficient_distinct_turns"@,
        "observed_error_rate_too_high"@,
        "severe_fault"@,
        "absolute_latency_budget_exceeded"@,
        "non_inferiority_confidence_failed"@,
        "relative_latency_budget_exceeded"@,
        "sparse_predecessor_evidence"@,
    ];
    assert forall|i: int, j: int| 0 <= i < j < 12 implies names[i] != names[j] by {}
    lemma_reasons_of(policy, context, candidate, predecessor, rates, names[2]);
    lemma_reasons_of(policy, context, candidate, predecessor, rates, names[3]);
    lemma_reasons_of(policy, context, candidate, predecessor, rates, names[4]);
    lemma_reasons_of(policy, context, candidate, predecessor, rates, names[5]);
    lemma_reasons_of(policy, context, candidate, predecessor, rates, names[6]);
    lemma_reasons_of(policy, context, candidate, predecessor, rates, names[7]);
    lemma_reasons_of(policy, context, candidate, predecessor, rates, names[8]);
    lemma_reasons_of(policy, context, candidate, predecessor, rates, names[9]);
    lemma_reasons_of(policy, context, candidate, predecessor, rates, names[10]);
    lemma_reasons_of(policy, context, candidate, predecessor, rates, names[11]);
    assert(names[2] == "stale_or_invalid_artifact"@);
    assert(names[3] == "regression_gate_failed"@);
    assert(names[4] == "unresolved_targeted_negative_feedback"@);
    assert(names[5] == "insufficient_distinct_turns"@);
    assert(names[6] == "observed_error_rate_too_high"@);
    assert(names[7] == "severe_fault"@);
    assert(names[8] == "absolute_latency_budget_exceeded"@);
    assert(names[9] == "non_inferiority_confidence_failed"@);
    assert(names[10] == "relative_latency_budget_exceeded"@);
    assert(names[11] == "sparse_predecessor_evidence"@);
    assert(names[0] == "lineage_root_requires_second_human_activation"@);
    assert(names[1] == "capability_requires_human_review"@);
}

proof fn lemma_reasons_of(
    policy: PromotionPolicy,
    context: PromotionContext,
    candidate: QualifiedStatistics,
    predecessor: Option<QualifiedStatistics>,
    rates: RateFindings,
    x: Seq<char>,
)
    ensures
        ({
            let a = review_reasons(context).contains(x);
            let b = context_holds(context).contains(x);
            let c = evidence_holds(policy, context, candidate, predecessor, rates).contains(x);
            &&& promotion_reasons(policy, context, candidate, predecessor, rates).contains(x)
                <==> a || b || c
            &&& b || c ==> promotion_decision(policy, context, candidate, predecessor, rates)
                == PromotionDecision::Hold
            &&& a <==> {
                ||| x == "lineage_root_requires_second_human_activation"@
                    && context.predecessor_id is None
                ||| x == "capability_requires_human_review"@ && (context.capability_tier
                    is SideEffecting || context.capability_increased)
            }
            &&& b <==> {
                ||| x == "stale_or_invalid_artifact"@ && !(context.identity_valid
                    && context.row_version_current && context.generation_current)
                ||| x == "regression_gate_failed"@ && !(context.inherited_tests_passed
                    && context.held_out_tests_passed)
                ||| x == "unresolved_targeted_negative_feedback"@
                    && context.unresolved_negative_feedback
            }
            &&& c <==> context.predecessor_id is Some && {
                ||| x == "insufficient_distinct_turns"@ && candidate.distinct_turns
                    < policy.min_distinct_turns
                ||| x == "observed_error_rate_too_high"@ && rates.error_rate_too_high
                ||| x == "severe_fault"@ && candidate.severe_faults > 0
                ||| x == "absolute_latency_budget_exceeded"@ && candidate.p95_latency_us
                    > policy.absolute_p95_latency_us
                ||| x == "non_inferiority_confidence_failed"@ && rates.confidence_failed
                    && predecessor is Some && predecessor->0.distinct_turns
                    >= policy.min_distinct_turns
                ||| x == "relative_latency_budget_exceeded"@ && rates.relative_latency_exceeded
                    && predecessor is Some && predecessor->0.distinct_turns
                    >= policy.min_distinct_turns
                ||| x == "sparse_predecessor_evidence"@ && predecessor is Some
                    && predecessor->0.distinct_turns < policy.min_distinct_turns
            }
        }),
{
    lemma_reasons_listed(policy, context, candidate, predecessor, rates, x);
    lemma_context_listed(context, x);
    lemma_evidence_listed(policy, context, candidate, predecessor, rates, x);
}

/// Where no gate holds a promotion, a human decides on a lineage root, on effects and on
/// a widened capability, and anything else is promoted. Nothing else is ever held.
pub proof fn law_only_gates_hold(
    policy: PromotionPolicy,
    context: PromotionContext,
    candidate: QualifiedStatistics,
    predecessor: Option<QualifiedStatistics>,
    rates: RateFindings,
)
    requires
        context.identity_valid && context.row_version_current && context.generation_current,
        context.inherited_tests_passed && context.held_out_tests_passed,
        !context.unresolved_negative_feedback,
        context.predecessor_id is None || {
            &&& candidate.distinct_turns >= policy.min_distinct_turns
            &&& candidate.severe_faults == 0
            &&& candidate.p95_latency_us <= policy.absolute_p95_latency_us
            &&& !rates.error_rate_too_high
            &&& predecessor matches Some(previous) ==> previous.distinct_turns
                >= policy.min_distinct_turns && !rates.confidence_failed
                && !rates.relative_latency_exceeded
        },
    ensures
        ({
            let decision = promotion_decision(policy, context, candidate, predecessor, rates);
            let reasons = promotion_reasons(policy, context, candidate, predecessor, rates);
            let root = context.predecessor_id is None;
            let effects = context.capability_tier is SideEffecting || context.capability_increased;
            &&& decision == (if root || effects {
                PromotionDecision::HumanReview
            } else {
                PromotionDecision::Promote
            })
            &&& reasons.contains("lineage_root_requires_second_human_activation"@) <==> root
            &&& reasons.contains("capability_requires_human_review"@) <==> effects
            &&& reasons.len() == (if root { 1int } else { 0 }) + (if effects { 1int } else { 0 })
        }),
{
    lemma_gate_names_differ();
    let a = "lineage_root_requires_second_human_activation"@;
    let b = "capability_requires_human_review"@;
    reveal_strlit("lineage_root_requires_second_human_activation");
    reveal_strlit("capability_requires_human_review");
    assert(a.len() == 45 && b.len() == 32);
    lemma_reasons_listed(policy, context, candidate, predecessor, rates, a);
    lemma_reasons_listed(policy, context, candidate, predecessor, rates, b);
    lemma_context_listed(context, a);
    lemma_context_listed(context, b);
}

/// What is promoted is a replacement without effects and without a widened capability,
/// and no gate speaks against it.
pub proof fn law_only_proven_replacements_are_promoted(
    policy: PromotionPolicy,
    context: PromotionContext,
    candidate: QualifiedStatistics,
    predecessor: Option<QualifiedStatistics>,
    rates: RateFindings,
)
    requires
        promotion_decision(policy, context, candidate, predecessor, rates)
            == PromotionDecision::Promote,
    ensures
        context.predecessor_id is Some,
        !(context.capability_tier is SideEffecting),
        !context.capability_increased,
        candidate.severe_faults == 0,
        candidate.distinct_turns >= policy.min_distinct_turns,
        predecessor matches Some(previous) ==> previous.distinct_turns >= policy.min_distinct_turns
            && !rates.confidence_failed && !rates.relative_latency_exceeded,
        !rates.error_rate_too_high,
{
    law_each_gate_holds_by_itself(policy, context, candidate, predecessor, rates);
}

/// A lineage root and a side-effecting or widened capability are never promoted
/// automatically.
pub proof fn law_roots_and_effects_need_a_human(
    policy: PromotionPolicy,
    context: PromotionContext,
    candidate: QualifiedStatistics,
    predecessor: Option<QualifiedStatistics>,
    rates: RateFindings,
)
    requires
        context.predecessor_id is None || context.capability_tier == CapabilityTier::SideEffecting
            || context.capability_increased,
    ensures
        promotion_decision(policy, context, candidate, predecessor, rates)
            != PromotionDecision::Promote,
{
}

proof fn lemma_units_have_distinct_turns(
    policy: PromotionPolicy,
    skill_id: Seq<char>,
    events: Seq<InvocationModel>,
)
    ensures
        forall|i: int, j: int|
            #![trigger turn_units(policy, skill_id, events)[i], turn_units(policy, skill_id, events)[j]]
            0 <= i < j < turn_units(policy, skill_id, events).len() ==> turn_units(
                policy,
                skill_id,
                events,
            )[i].turn_id != turn_units(policy, skill_id, events)[j].turn_id,
    decreases events.len(),
{
    if events.len() > 0 {
        let init = events.drop_last();
        lemma_units_have_distinct_turns(policy, skill_id, init);
        let before = turn_units(policy, skill_id, init);
        let event = events.last();
        let after = turn_units(policy, skill_id, events);
        if policy.counts(skill_id, event) {
            let p = unit_of_turn(event.turn_id);
            match crate::store::position(before, p) {
                Some(k) => {
                    assert(crate::store::first_match(before, p, k));
                    assert forall|i: int, j: int| 0 <= i < j < after.len() implies (
                    #[trigger] after[i]).turn_id != (#[trigger] after[j]).turn_id by {
                        assert(after[i].turn_id == before[i].turn_id);
                        assert(after[j].turn_id == before[j].turn_id);
                    }
                },
                None => {
                    assert forall|i: int, j: int| 0 <= i < j < after.len() implies (
                    #[trigger] after[i]).turn_id != (#[trigger] after[j]).turn_id by {
                        if j == before.len() && before[i].turn_id == event.turn_id {
                            crate::store::lemma_some_match_is_found(before, p, i);
                        }
                    }
                },
            }
        }
    }
}

/// Each turn gives one unit, and that unit is no better than any event of the turn
/// that counts.
pub proof fn law_units_are_the_worst_of_their_turn(
    policy: PromotionPolicy,
    skill_id: Seq<char>,
    events: Seq<InvocationModel>,
    at: int,
)
    requires
        0 <= at < events.len(),
        policy.counts(skill_id, events[at]),
    ensures
        exists|i: int|
            0 <= i < turn_units(policy, skill_id, events).len() && (#[trigger] turn_units(
                policy,
                skill_id,
                events,
            )[i]).turn_id == events[at].turn_id && !worse(
                events[at].outcome,
                events[at].latency_us,
                turn_units(policy, skill_id, events)[i].outcome,
                turn_units(policy, skill_id, events)[i].latency_us,
            ),
        forall|i: int, j: int|
            #![trigger turn_units(policy, skill_id, events)[i], turn_units(policy, skill_id, events)[j]]
            0 <= i < j < turn_units(policy, skill_id, events).len() ==> turn_units(
                policy,
                skill_id,
                events,
            )[i].turn_id != turn_units(policy, skill_id, events)[j].turn_id,
    decreases events.len(),
{
    lemma_units_have_distinct_turns(policy, skill_id, events);
    let init = events.drop_last();
    let before = turn_units(policy, skill_id, init);
    let after = turn_units(policy, skill_id, events);
    let last = events.last();
    let p = unit_of_turn(last.turn_id);
    if at < init.len() {
        law_units_are_the_worst_of_their_turn(policy, skill_id, init, at);
        let i = choose|i: int|
            0 <= i < before.len() && (#[trigger] before[i]).turn_id == events[at].turn_id && !worse(
                events[at].outcome,
                events[at].latency_us,
                before[i].outcome,
                before[i].latency_us,
            );
        if policy.counts(skill_id, last) {
            match crate::store::position(before, p) {
                Some(k) => {
                    assert(crate::store::first_match(before, p, k));
                    assert(after[i].turn_id == events[at].turn_id);
                },
                None => {
                    assert(after[i] == before[i]);
                },
            }
        } else {
            assert(after[i] == before[i]);
        }
    } else {
        match crate::store::position(before, p) {
            Some(k) => {
                assert(crate::store::first_match(before, p, k));
                assert(after[k].turn_id == last.turn_id);
            },
            None => {
                assert(after[before.len() as int].turn_id == last.turn_id);
            },
        }
    }
}

/// The unit that one event alone gives.
pub open spec fn unit_of(event: InvocationModel) -> TurnUnit {
    TurnUnit {
        turn_id: event.turn_id,
        outcome: event.outcome,
        latency_us: event.latency_us,
    }
}

proof fn lemma_units_come_from_events(
    policy: PromotionPolicy,
    skill_id: Seq<char>,
    events: Seq<InvocationModel>,
    i: int,
)
    requires
        0 <= i < turn_units(policy, skill_id, events).len(),
    ensures
        exists|at: int|
            0 <= at < events.len() && policy.counts(skill_id, #[trigger] events[at]) && unit_of(
                events[at],
            ) == turn_units(policy, skill_id, events)[i],
    decreases events.len(),
{
    let init = events.drop_last();
    let before = turn_units(policy, skill_id, init);
    let after = turn_units(policy, skill_id, events);
    let last = events.last();
    if i < before.len() && after[i] == before[i] {
        lemma_units_come_from_events(policy, skill_id, init, i);
        let at = choose|at: int|
            0 <= at < init.len() && policy.counts(skill_id, #[trigger] init[at]) && unit_of(
                init[at],
            ) == before[i];
        assert(events[at] == init[at]);
    } else {
        let p = unit_of_turn(last.turn_id);
        match crate::store::position(before, p) {
            Some(k) => {
                assert(crate::store::first_match(before, p, k));
            },
            None => {},
        }
        assert(after[i] == unit_of(last));
        assert(events[events.len() - 1] == last);
    }
}

/// A unit is that of an event that counts, and no other event of its turn that counts is
/// worse.
pub open spec fn is_worst_unit(
    policy: PromotionPolicy,
    skill_id: Seq<char>,
    events: Seq<InvocationModel>,
    unit: TurnUnit,
) -> bool {
    &&& exists|e: InvocationModel|
        #[trigger] events.contains(e) && policy.counts(skill_id, e) && unit_of(e) == unit
    &&& forall|e: InvocationModel|
        #[trigger] events.contains(e) && policy.counts(skill_id, e) && e.turn_id == unit.turn_id
            ==> !worse(e.outcome, e.latency_us, unit.outcome, unit.latency_us)
}

proof fn lemma_units_are_worst(
    policy: PromotionPolicy,
    skill_id: Seq<char>,
    events: Seq<InvocationModel>,
    unit: TurnUnit,
)
    ensures
        turn_units(policy, skill_id, events).contains(unit) <==> is_worst_unit(
            policy,
            skill_id,
            events,
            unit,
        ),
{
    let units = turn_units(policy, skill_id, events);
    if units.contains(unit) {
        let i = units.index_of(unit);
        lemma_units_come_from_events(policy, skill_id, events, i);
        let at = choose|at: int|
            0 <= at < events.len() && policy.counts(skill_id, #[trigger] events[at]) && unit_of(
                events[at],
            ) == units[i];
        assert(events.contains(events[at]));
        assert forall|e: InvocationModel|
            #[trigger] events.contains(e) && policy.counts(skill_id, e) && e.turn_id
                == unit.turn_id implies !worse(
            e.outcome,
            e.latency_us,
            unit.outcome,
            unit.latency_us,
        ) by {
            let k = events.index_of(e);
            law_units_are_the_worst_of_their_turn(policy, skill_id, events, k);
            let j = choose|j: int|
                0 <= j < units.len() && (#[trigger] units[j]).turn_id == e.turn_id && !worse(
                    e.outcome,
                    e.latency_us,
                    units[j].outcome,
                    units[j].latency_us,
                );
            if i < j {
                assert(units[i].turn_id != units[j].turn_id);
            } else if j < i {
                assert(units[j].turn_id != units[i].turn_id);
            }
        }
    }
    if is_worst_unit(policy, skill_id, events, unit) {
        let e = choose|e: InvocationModel|
            #[trigger] events.contains(e) && policy.counts(skill_id, e) && unit_of(e) == unit;
        let k = events.index_of(e);
        law_units_are_the_worst_of_their_turn(policy, skill_id, events, k);
        let j = choose|j: int|
            0 <= j < units.len() && (#[trigger] units[j]).turn_id == e.turn_id && !worse(
                e.outcome,
                e.latency_us,
                units[j].outcome,
                units[j].latency_us,
            );
        lemma_units_come_from_events(policy, skill_id, events, j);
        let at = choose|at: int|
            0 <= at < events.len() && policy.counts(skill_id, #[trigger] events[at]) && unit_of(
                events[at],
            ) == units[j];
        assert(events.contains(events[at]));
        assert(!worse(units[j].outcome, units[j].latency_us, unit.outcome, unit.latency_us));
        assert(units[j] =~= unit);
    }
}

/// What is counted and what is sorted does not depend on the order of the units.
proof fn lemma_statistics_of_rearranged(a: Seq<TurnUnit>, b: Seq<TurnUnit>, p: spec_fn(TurnUnit) -> bool)
    requires
        a.to_multiset() == b.to_multiset(),
    ensures
        a.len() == b.len(),
        count(a, p) == count(b, p),
        a.map_values(|u: TurnUnit| u.latency_us).to_multiset() == b.map_values(
            |u: TurnUnit| u.latency_us,
        ).to_multiset(),
    decreases a.len(),
{
    broadcast use vstd::seq_lib::group_to_multiset_ensures;

    let slow = |u: TurnUnit| u.latency_us;
    assert(a.len() == a.to_multiset().len() && b.len() == b.to_multiset().len());
    if a.len() > 0 {
        let x = a.last();
        let init = a.drop_last();
        assert(a =~= init.push(x));
        assert(a.to_multiset() =~= init.to_multiset().insert(x));
        assert(a.contains(x));
        assert(b.to_multiset().count(x) > 0);
        assert(b.contains(x));
        let k = b.index_of(x);
        let rest = b.remove(k);
        assert(b =~= rest.insert(k, x));
        text::lemma_insert_multiset(rest, k, x);
        assert(init.to_multiset() =~= a.to_multiset().remove(x));
        assert(rest.to_multiset() =~= b.to_multiset().remove(x));
        lemma_statistics_of_rearranged(init, rest, p);
        lemma_count_insert(rest, k, x, p);
        assert(a.map_values(slow) =~= init.map_values(slow).push(slow(x)));
        assert(b.map_values(slow) =~= rest.map_values(slow).insert(k, slow(x)));
        text::lemma_insert_multiset(rest.map_values(slow), k, slow(x));
        assert(a.map_values(slow).to_multiset() =~= init.map_values(slow).to_multiset().insert(
            slow(x),
        ));
    } else {
        assert(a =~= b);
    }
}

/// Qualification looks only at which events that count there are: neither the statistics
/// nor a conflict depends on their order, on how often one is read, or on other events.
pub proof fn law_only_counted_events_matter(
    policy: PromotionPolicy,
    skill_id: Seq<char>,
    a: Seq<InvocationModel>,
    b: Seq<InvocationModel>,
)
    requires
        same_counted(policy, skill_id, a, b),
    ensures
        statistics_of(turn_units(policy, skill_id, a)) == statistics_of(
            turn_units(policy, skill_id, b),
        ),
        invocation_conflict(policy, skill_id, a) == invocation_conflict(policy, skill_id, b),
{
    broadcast use vstd::seq_lib::group_to_multiset_ensures;

    let u = turn_units(policy, skill_id, a);
    let v = turn_units(policy, skill_id, b);
    lemma_units_have_distinct_turns(policy, skill_id, a);
    lemma_units_have_distinct_turns(policy, skill_id, b);
    assert(u.no_duplicates());
    assert(v.no_duplicates());
    assert forall|x: TurnUnit| u.contains(x) == v.contains(x) by {
        lemma_units_are_worst(policy, skill_id, a, x);
        lemma_units_are_worst(policy, skill_id, b, x);
        if is_worst_unit(policy, skill_id, a, x) {
            lemma_same_worst_unit(policy, skill_id, a, b, x);
        }
        if is_worst_unit(policy, skill_id, b, x) {
            lemma_same_worst_unit(policy, skill_id, b, a, x);
        }
    }
    u.lemma_multiset_has_no_duplicates();
    v.lemma_multiset_has_no_duplicates();
    assert(u.to_multiset() =~= v.to_multiset()) by {
        assert forall|x: TurnUnit| u.to_multiset().count(x) == v.to_multiset().count(x) by {
            assert(u.contains(x) <==> u.to_multiset().count(x) > 0);
            assert(v.contains(x) <==> v.to_multiset().count(x) > 0);
        }
    }
    lemma_statistics_of_rearranged(u, v, is_failure());
    lemma_statistics_of_rearranged(u, v, is_severe_unit());
    let x = u.map_values(|t: TurnUnit| t.latency_us);
    let y = v.map_values(|t: TurnUnit| t.latency_us);
    lemma_ascending_is_total();
    x.lemma_sort_by_ensures(ascending());
    y.lemma_sort_by_ensures(ascending());
    lemma_sorted_unique(x.sort_by(ascending()), y.sort_by(ascending()), ascending());
    if invocation_conflict(policy, skill_id, a) {
        lemma_same_conflicts(policy, skill_id, a, b);
    }
    if invocation_conflict(policy, skill_id, b) {
        lemma_same_conflicts(policy, skill_id, b, a);
    }
}

proof fn lemma_count_is_of_turns(
    units: Seq<TurnUnit>,
    p: spec_fn(TurnUnit) -> bool,
    wanted: Set<Seq<char>>,
)
    requires
        forall|i: int, j: int|
            0 <= i < j < units.len() ==> (#[trigger] units[i]).turn_id != (
            #[trigger] units[j]).turn_id,
        forall|turn: Seq<char>|
            #[trigger] wanted.contains(turn) <==> exists|i: int|
                0 <= i < units.len() && p(#[trigger] units[i]) && units[i].turn_id == turn,
    ensures
        wanted.finite(),
        wanted.len() == count(units, p),
        count(units, p) <= units.len(),
    decreases units.len(),
{
    if units.len() == 0 {
        assert(wanted =~= Set::empty());
    } else {
        let init = units.drop_last();
        let last = units.last();
        let rest = if p(last) {
            wanted.remove(last.turn_id)
        } else {
            wanted
        };
        assert forall|turn: Seq<char>| #[trigger] rest.contains(turn) <==> exists|i: int|
            0 <= i < init.len() && p(#[trigger] init[i]) && init[i].turn_id == turn by {
            if rest.contains(turn) {
                let i = choose|i: int|
                    0 <= i < units.len() && p(#[trigger] units[i]) && units[i].turn_id == turn;
                assert(i < init.len());
                assert(init[i] == units[i]);
            }
            if exists|i: int| 0 <= i < init.len() && p(#[trigger] init[i]) && init[i].turn_id
                == turn {
                let i = choose|i: int|
                    0 <= i < init.len() && p(#[trigger] init[i]) && init[i].turn_id == turn;
                assert(units[i] == init[i]);
                assert(units[i].turn_id != units[units.len() - 1].turn_id);
                assert(wanted.contains(turn));
            }
        }
        lemma_count_is_of_turns(init, p, rest);
        if p(last) {
            assert(units[units.len() - 1] == last);
            assert(wanted.contains(last.turn_id));
            assert(wanted =~= rest.insert(last.turn_id));
        }
    }
}

/// The turns that have an event of some sort.
pub open spec fn turns_having(
    events: Seq<InvocationModel>,
    wanted: spec_fn(InvocationModel) -> bool,
) -> Set<Seq<char>> {
    Set::new(
        |turn: Seq<char>|
            exists|i: int|
                0 <= i < events.len() && (#[trigger] events[i]).turn_id == turn && wanted(
                    events[i],
                ),
    )
}

proof fn lemma_turns_with_units(
    policy: PromotionPolicy,
    skill_id: Seq<char>,
    events: Seq<InvocationModel>,
    p: spec_fn(TurnUnit) -> bool,
    wanted: spec_fn(InvocationModel) -> bool,
)
    requires
        forall|e: InvocationModel| #[trigger]
            wanted(e) <==> policy.counts(skill_id, e) && p(unit_of(e)),
        forall|a: TurnUnit, b: TurnUnit|
            #[trigger] p(a) && a.turn_id == b.turn_id && !worse(
                a.outcome,
                a.latency_us,
                b.outcome,
                b.latency_us,
            ) ==> #[trigger] p(b),
    ensures
        turns_having(events, wanted).finite(),
        turns_having(events, wanted).len() == count(turn_units(policy, skill_id, events), p),
        count(turn_units(policy, skill_id, events), p) <= turn_units(
            policy,
            skill_id,
            events,
        ).len(),
{
    let units = turn_units(policy, skill_id, events);
    let set = turns_having(events, wanted);
    lemma_units_have_distinct_turns(policy, skill_id, events);
    assert forall|turn: Seq<char>| #[trigger] set.contains(turn) <==> exists|i: int|
        0 <= i < units.len() && p(#[trigger] units[i]) && units[i].turn_id == turn by {
        if set.contains(turn) {
            let k = choose|k: int|
                0 <= k < events.len() && (#[trigger] events[k]).turn_id == turn && wanted(
                    events[k],
                );
            law_units_are_the_worst_of_their_turn(policy, skill_id, events, k);
            let i = choose|i: int|
                0 <= i < units.len() && (#[trigger] units[i]).turn_id == events[k].turn_id
                    && !worse(
                    events[k].outcome,
                    events[k].latency_us,
                    units[i].outcome,
                    units[i].latency_us,
                );
            assert(p(unit_of(events[k])));
            assert(p(units[i]));
        }
        if exists|i: int| 0 <= i < units.len() && p(#[trigger] units[i]) && units[i].turn_id
            == turn {
            let i = choose|i: int|
                0 <= i < units.len() && p(#[trigger] units[i]) && units[i].turn_id == turn;
            lemma_units_come_from_events(policy, skill_id, events, i);
            let at = choose|at: int|
                0 <= at < events.len() && policy.counts(skill_id, #[trigger] events[at])
                    && unit_of(events[at]) == units[i];
            assert(wanted(events[at]));
        }
    }
    lemma_count_is_of_turns(units, p, set);
}

proof fn lemma_count_all(units: Seq<TurnUnit>)
    ensures
        count(units, |u: TurnUnit| true) == units.len(),
    decreases units.len(),
{
    if units.len() > 0 {
        lemma_count_all(units.drop_last());
    }
}

proof fn lemma_units_are_few(
    policy: PromotionPolicy,
    skill_id: Seq<char>,
    events: Seq<InvocationModel>,
)
    ensures
        turn_units(policy, skill_id, events).len() <= events.len(),
    decreases events.len(),
{
    if events.len() > 0 {
        lemma_units_are_few(policy, skill_id, events.drop_last());
    }
}

/// What is counted are turns: those in which the skill was invoked in production, fully
/// observed and within the window. A turn has failed where one of its invocations did,
/// and had a severe fault where one of them ran out of time or memory or was denied a
/// capability; every other turn is a success.
pub proof fn law_statistics_count_turns_by_their_events(
    policy: PromotionPolicy,
    skill_id: Seq<char>,
    events: Seq<InvocationModel>,
)
    requires
        events.len() <= usize::MAX,
    ensures
        ({
            let s = statistics_of(turn_units(policy, skill_id, events));
            let seen = |e: InvocationModel|
                e.skill_id == skill_id && e.production && e.observability_complete
                    && policy.window_start <= e.created_at && e.created_at <= policy.window_end;
            let all = turns_having(events, seen);
            let failed = turns_having(
                events,
                |e: InvocationModel| seen(e) && !(e.outcome is Success),
            );
            let severe = turns_having(
                events,
                |e: InvocationModel|
                    seen(e) && (e.outcome is Timeout || e.outcome is Oom || e.outcome
                        is CapabilityDenied),
            );
            &&& all.finite() && failed.finite() && severe.finite()
            &&& s.distinct_turns == all.len()
            &&& s.failures == failed.len()
            &&& s.severe_faults == severe.len()
            &&& s.successes + s.failures == s.distinct_turns
        }),
{
    let units = turn_units(policy, skill_id, events);
    let seen = |e: InvocationModel|
        e.skill_id == skill_id && e.production && e.observability_complete && policy.window_start
            <= e.created_at && e.created_at <= policy.window_end;
    lemma_units_are_few(policy, skill_id, events);
    lemma_count_all(units);
    lemma_turns_with_units(policy, skill_id, events, |u: TurnUnit| true, seen);
    lemma_turns_with_units(
        policy,
        skill_id,
        events,
        is_failure(),
        |e: InvocationModel| seen(e) && !(e.outcome is Success),
    );
    lemma_turns_with_units(
        policy,
        skill_id,
        events,
        is_severe_unit(),
        |e: InvocationModel|
            seen(e) && (e.outcome is Timeout || e.outcome is Oom || e.outcome is CapabilityDenied),
    );
}

proof fn lemma_sorted_below(sorted: Seq<u64>, p: spec_fn(u64) -> bool)
    requires
        sorted_by(sorted, ascending()),
        forall|x: u64, y: u64| x <= y && #[trigger] p(y) ==> #[trigger] p(x),
    ensures
        forall|i: int| 0 <= i < sorted.len() ==> (p(#[trigger] sorted[i]) <==> i < count(sorted, p)),
        count(sorted, p) <= sorted.len(),
    decreases sorted.len(),
{
    if sorted.len() > 0 {
        let init = sorted.drop_last();
        let leq = ascending();
        assert forall|i: int, j: int| 0 <= i < j < init.len() implies #[trigger] leq(
            init[i],
            init[j],
        ) by {
            assert(leq(sorted[i], sorted[j]));
        }
        lemma_sorted_below(init, p);
        let n = sorted.len() - 1;
        if p(sorted.last()) {
            assert forall|i: int| 0 <= i < n implies p(#[trigger] init[i]) by {
                assert(leq(sorted[i], sorted[n]));
            }
            if count(init, p) < n {
                assert(p(init[count(init, p) as int]));
            }
        }
        assert forall|i: int| 0 <= i < sorted.len() implies (p(#[trigger] sorted[i]) <==> i < count(
            sorted,
            p,
        )) by {
            if i < n {
                assert(init[i] == sorted[i]);
            }
        }
    }
}

/// The nearest rank is one of the values: at least the given percentage of the values do
/// not exceed it, and fewer are below it.
pub proof fn law_percentiles_are_of_the_nearest_rank(sorted: Seq<u64>, percentile: u32)
    requires
        sorted_by(sorted, ascending()),
    ensures
        match percentile_of(sorted, percentile) {
            None => sorted.len() == 0 || percentile == 0 || percentile > 100,
            Some(v) => {
                &&& 1 <= percentile <= 100
                &&& sorted.contains(v)
                &&& count(sorted, |x: u64| x <= v) * 100 >= percentile * sorted.len()
                &&& count(sorted, |x: u64| x < v) * 100 < percentile * sorted.len()
            },
        },
{
    if let Some(v) = percentile_of(sorted, percentile) {
        let n = sorted.len() as int;
        let r = (percentile * n + 99) / 100;
        assert(1 <= percentile * n <= 100 * n) by (nonlinear_arith)
            requires
                1 <= percentile <= 100,
                1 <= n,
        ;
        assert(sorted[r - 1] == v);
        let upto = |x: u64| x <= v;
        let below = |x: u64| x < v;
        lemma_sorted_below(sorted, upto);
        lemma_sorted_below(sorted, below);
        assert(upto(sorted[r - 1]) && !below(sorted[r - 1]));
    }
}

/// A turn is as slow as the slowest of its invocations that ended as badly as any of
/// them did, and the latency of a skill is the nearest rank among its turns: at least
/// 95 percent of the turns are no slower, and fewer are faster.
pub proof fn law_latency_is_that_of_the_worst_invocations(
    policy: PromotionPolicy,
    skill_id: Seq<char>,
    events: Seq<InvocationModel>,
)
    ensures
        ({
            let units = turn_units(policy, skill_id, events);
            let p95 = statistics_of(units).p95_latency_us;
            let seen = |e: InvocationModel|
                e.skill_id == skill_id && e.production && e.observability_complete
                    && policy.window_start <= e.created_at && e.created_at <= policy.window_end;
            let badness = |o: DirectOutcome|
                match o {
                    DirectOutcome::Success => 0int,
                    DirectOutcome::Throw => 1,
                    DirectOutcome::Timeout => 2,
                    DirectOutcome::Oom => 3,
                    DirectOutcome::CapabilityDenied => 4,
                };
            &&& forall|u: TurnUnit|
                #![trigger units.contains(u)]
                units.contains(u) <==> {
                    &&& exists|e: InvocationModel|
                        #![trigger events.contains(e)]
                        events.contains(e) && seen(e) && e.turn_id == u.turn_id && e.outcome
                            == u.outcome && e.latency_us == u.latency_us
                    &&& forall|e: InvocationModel|
                        #![trigger events.contains(e)]
                        events.contains(e) && seen(e) && e.turn_id == u.turn_id ==> badness(
                            e.outcome,
                        ) < badness(u.outcome) || (e.outcome == u.outcome && e.latency_us
                            <= u.latency_us)
                }
            &&& if units.len() == 0 {
                p95 == 0
            } else {
                &&& exists|i: int| 0 <= i < units.len() && (#[trigger] units[i]).latency_us == p95
                &&& count(units, |u: TurnUnit| u.latency_us <= p95) * 100 >= 95 * units.len()
                &&& count(units, |u: TurnUnit| u.latency_us < p95) * 100 < 95 * units.len()
            }
        }),
{
    let units = turn_units(policy, skill_id, events);
    let p95 = statistics_of(units).p95_latency_us;
    assert forall|u: TurnUnit| #[trigger] units.contains(u) <==> is_worst_unit(
        policy,
        skill_id,
        events,
        u,
    ) by {
        lemma_units_are_worst(policy, skill_id, events, u);
    }
    let slow = |u: TurnUnit| u.latency_us;
    let latencies = units.map_values(slow);
    let sorted = latencies.sort_by(ascending());
    lemma_ascending_is_total();
    latencies.lemma_sort_by_ensures(ascending());
    broadcast use vstd::seq_lib::group_to_multiset_ensures;

    assert(sorted.len() == latencies.to_multiset().len());
    assert(sorted.len() == units.len());
    law_percentiles_are_of_the_nearest_rank(sorted, 95);
    if units.len() > 0 {
        assert(sorted.contains(p95));
        assert(latencies.to_multiset().count(p95) > 0);
        assert(latencies.contains(p95));
        let i = latencies.index_of(p95);
        assert(units[i].latency_us == p95);
        let upto = |x: u64| x <= p95;
        let below = |x: u64| x < p95;
        lemma_count_rearranged(sorted, latencies, upto);
        lemma_count_rearranged(sorted, latencies, below);
        lemma_count_mapped(units, slow, upto, |u: TurnUnit| u.latency_us <= p95);
        lemma_count_mapped(units, slow, below, |u: TurnUnit| u.latency_us < p95);
    }
}

proof fn lemma_count_mapped<A, B>(
    s: Seq<A>,
    f: spec_fn(A) -> B,
    p: spec_fn(B) -> bool,
    q: spec_fn(A) -> bool,
)
    requires
        forall|x: A| #[trigger] q(x) == p(f(x)),
    ensures
        count(s.map_values(f), p) == count(s, q),
    decreases s.len(),
{
    if s.len() > 0 {
        assert(s.map_values(f).drop_last() =~= s.drop_last().map_values(f));
        assert(q(s.last()) == p(f(s.last())));
        lemma_count_mapped(s.drop_last(), f, p, q);
    }
}

proof fn lemma_count_rearranged(a: Seq<u64>, b: Seq<u64>, p: spec_fn(u64) -> bool)
    requires
        a.to_multiset() == b.to_multiset(),
    ensures
        count(a, p) == count(b, p),
    decreases a.len(),
{
    broadcast use vstd::seq_lib::group_to_multiset_ensures;

    assert(a.len() == a.to_multiset().len() && b.len() == b.to_multiset().len());
    if a.len() > 0 {
        let x = a.last();
        let init = a.drop_last();
        assert(a =~= init.push(x));
        assert(a.contains(x));
        assert(b.to_multiset().count(x) > 0);
        assert(b.contains(x));
        let k = b.index_of(x);
        let rest = b.remove(k);
        assert(b =~= rest.insert(k, x));
        text::lemma_insert_multiset(rest, k, x);
        assert(init.to_multiset() =~= a.to_multiset().remove(x));
        assert(rest.to_multiset() =~= b.to_multiset().remove(x));
        lemma_count_rearranged(init, rest, p);
        lemma_count_insert(rest, k, x, p);
    } else {
        assert(a =~= b);
    }
}

proof fn lemma_count_insert<A>(s: Seq<A>, k: int, x: A, p: spec_fn(A) -> bool)
    requires
        0 <= k <= s.len(),
    ensures
        count(s.insert(k, x), p) == count(s, p) + if p(x) {
            1nat
        } else {
            0nat
        },
    decreases s.len(),
{
    let all = s.insert(k, x);
    if k == s.len() {
        assert(all.drop_last() =~= s);
    } else {
        assert(all.drop_last() =~= s.drop_last().insert(k, x));
        assert(all.last() == s.last());
        lemma_count_insert(s.drop_last(), k, x, p);
    }
}

/// Where no turn had a severe fault, no event that counts was severe.
pub proof fn lemma_no_severe_event(
    policy: PromotionPolicy,
    skill_id: Seq<char>,
    events: Seq<InvocationModel>,
)
    requires
        events.len() <= usize::MAX,
        statistics_of(turn_units(policy, skill_id, events)).severe_faults == 0,
    ensures
        forall|e: InvocationModel|
            #[trigger] events.contains(e) && e.skill_id == skill_id && e.production
                && e.observability_complete && policy.window_start <= e.created_at && e.created_at
                <= policy.window_end ==> e.outcome is Success || e.outcome is Throw,
{
    let units = turn_units(policy, skill_id, events);
    let seen = |e: InvocationModel|
        e.skill_id == skill_id && e.production && e.observability_complete && policy.window_start
            <= e.created_at && e.created_at <= policy.window_end;
    let severe = |e: InvocationModel|
        seen(e) && (e.outcome is Timeout || e.outcome is Oom || e.outcome is CapabilityDenied);
    lemma_turns_with_units(policy, skill_id, events, is_severe_unit(), severe);
    lemma_units_are_few(policy, skill_id, events);
    let turns = turns_having(events, severe);
    assert forall|e: InvocationModel|
        #[trigger] events.contains(e) && e.skill_id == skill_id && e.production
            && e.observability_complete && policy.window_start <= e.created_at && e.created_at
            <= policy.window_end implies e.outcome is Success || e.outcome is Throw by {
        if severe(e) {
            let i = events.index_of(e);
            assert(events[i].turn_id == e.turn_id && severe(events[i]));
            assert(turns.contains(e.turn_id));
            vstd::set::axiom_set_contains_len(turns, e.turn_id);
        }
    }
}

/// Two records of one invocation that differ are a conflict, and nothing else is: they
/// are both of the skill, from production, fully observed and within the window.
pub proof fn law_conflicts_are_differing_records_of_one_invocation(
    policy: PromotionPolicy,
    skill_id: Seq<char>,
    events: Seq<InvocationModel>,
)
    ensures
        ({
            let seen = |e: InvocationModel|
                e.skill_id == skill_id && e.production && e.observability_complete
                    && policy.window_start <= e.created_at && e.created_at <= policy.window_end;
            invocation_conflict(policy, skill_id, events) <==> exists|
                a: InvocationModel,
                b: InvocationModel,
            |
                #![trigger events.contains(a), events.contains(b)]
                events.contains(a) && events.contains(b) && seen(a) && seen(b) && a.invocation_id
                    == b.invocation_id && a != b
        }),
{
    let seen = |e: InvocationModel|
        e.skill_id == skill_id && e.production && e.observability_complete && policy.window_start
            <= e.created_at && e.created_at <= policy.window_end;
    if invocation_conflict(policy, skill_id, events) {
        let (i, j) = choose|i: int, j: int|
            0 <= i < j < events.len() && policy.counts(skill_id, #[trigger] events[i])
                && policy.counts(skill_id, #[trigger] events[j]) && events[i].invocation_id
                == events[j].invocation_id && events[i] != events[j];
        assert(events.contains(events[i]) && events.contains(events[j]));
    }
    if exists|a: InvocationModel, b: InvocationModel|
        #![trigger events.contains(a), events.contains(b)]
        events.contains(a) && events.contains(b) && seen(a) && seen(b) && a.invocation_id
            == b.invocation_id && a != b {
        let (a, b) = choose|a: InvocationModel, b: InvocationModel|
            #![trigger events.contains(a), events.contains(b)]
            events.contains(a) && events.contains(b) && seen(a) && seen(b) && a.invocation_id
                == b.invocation_id && a != b;
        let m = events.index_of(a);
        let n = events.index_of(b);
        assert(policy.counts(skill_id, events[m]) && policy.counts(skill_id, events[n]));
        if m < n {
            assert(events[m] != events[n]);
        } else {
            assert(events[n] != events[m]);
        }
    }
}

/// A policy is refused exactly where it names no version, asks for no turns, allows no
/// time, has thresholds out of range or a window that ends before it begins.
pub proof fn law_policies_must_ask_for_something(policy: PromotionPolicy)
    ensures
        policy.version@.len() == 0 ==> !policy.valid(),
        policy.min_distinct_turns == 0 ==> !policy.valid(),
        policy.absolute_p95_latency_us == 0 ==> !policy.valid(),
        !policy.thresholds_in_range ==> !policy.valid(),
        policy.window_end < policy.window_start ==> !policy.valid(),
        policy.valid() || policy.version@.len() == 0 || policy.min_distinct_turns == 0
            || policy.absolute_p95_latency_us == 0 || !policy.thresholds_in_range
            || policy.window_end < policy.window_start,
{
}

/// Two lists hold the same events that count.
pub open spec fn same_counted(
    policy: PromotionPolicy,
    skill_id: Seq<char>,
    a: Seq<InvocationModel>,
    b: Seq<InvocationModel>,
) -> bool {
    forall|e: InvocationModel|
        policy.counts(skill_id, e) ==> #[trigger] a.contains(e) == #[trigger] b.contains(e)
}

/// Qualification is reproducible: neither the statistics nor a conflict depends on the
/// order in which the events are read.
pub proof fn law_event_order_is_irrelevant(
    policy: PromotionPolicy,
    skill_id: Seq<char>,
    a: Seq<InvocationModel>,
    b: Seq<InvocationModel>,
)
    requires
        a.to_multiset() == b.to_multiset(),
    ensures
        statistics_of(turn_units(policy, skill_id, a)) == statistics_of(
            turn_units(policy, skill_id, b),
        ),
        invocation_conflict(policy, skill_id, a) == invocation_conflict(policy, skill_id, b),
{
    broadcast use vstd::seq_lib::group_to_multiset_ensures;

    assert forall|e: InvocationModel| #[trigger] a.contains(e) == b.contains(e) by {
        assert(a.contains(e) <==> a.to_multiset().count(e) > 0);
        assert(b.contains(e) <==> b.to_multiset().count(e) > 0);
    }
    law_only_counted_events_matter(policy, skill_id, a, b);
}

/// An event that is read again, wherever it stands, changes neither the statistics nor
/// whether there is a conflict; and no more does an event outside the window.
pub proof fn law_repeated_and_distant_events_change_nothing(
    policy: PromotionPolicy,
    skill_id: Seq<char>,
    events: Seq<InvocationModel>,
    event: InvocationModel,
    at: int,
)
    requires
        0 <= at <= events.len(),
        events.contains(event) || event.created_at < policy.window_start || event.created_at
            > policy.window_end,
    ensures
        statistics_of(turn_units(policy, skill_id, events.insert(at, event))) == statistics_of(
            turn_units(policy, skill_id, events),
        ),
        invocation_conflict(policy, skill_id, events.insert(at, event)) == invocation_conflict(
            policy,
            skill_id,
            events,
        ),
{
    let more = events.insert(at, event);
    assert forall|e: InvocationModel| policy.counts(skill_id, e) implies #[trigger] more.contains(e)
        == #[trigger] events.contains(e) by {
        if events.contains(e) {
            let k = events.index_of(e);
            if k < at {
                assert(more[k] == e);
            } else {
                assert(more[k + 1] == e);
            }
        }
        if more.contains(e) {
            let k = more.index_of(e);
            if k < at {
                assert(events[k] == e);
            } else if k > at {
                assert(events[k - 1] == e);
            }
        }
    }
    law_only_counted_events_matter(policy, skill_id, more, events);
}

proof fn lemma_same_worst_unit(
    policy: PromotionPolicy,
    skill_id: Seq<char>,
    a: Seq<InvocationModel>,
    b: Seq<InvocationModel>,
    unit: TurnUnit,
)
    requires
        same_counted(policy, skill_id, a, b),
        is_worst_unit(policy, skill_id, a, unit),
    ensures
        is_worst_unit(policy, skill_id, b, unit),
{
    let e = choose|e: InvocationModel|
        #[trigger] a.contains(e) && policy.counts(skill_id, e) && unit_of(e) == unit;
    assert(b.contains(e));
    assert forall|e: InvocationModel|
        #[trigger] b.contains(e) && policy.counts(skill_id, e) && e.turn_id
            == unit.turn_id implies !worse(
        e.outcome,
        e.latency_us,
        unit.outcome,
        unit.latency_us,
    ) by {
        assert(a.contains(e));
    }
}

proof fn lemma_ascending_is_total()
    ensures
        total_ordering(ascending()),
{
}

proof fn lemma_same_conflicts(
    policy: PromotionPolicy,
    skill_id: Seq<char>,
    a: Seq<InvocationModel>,
    b: Seq<InvocationModel>,
)
    requires
        same_counted(policy, skill_id, a, b),
        invocation_conflict(policy, skill_id, a),
    ensures
        invocation_conflict(policy, skill_id, b),
{
    let (i, j) = choose|i: int, j: int|
        0 <= i < j < a.len() && policy.counts(skill_id, #[trigger] a[i]) && policy.counts(
            skill_id,
            #[trigger] a[j],
        ) && a[i].invocation_id == a[j].invocation_id && a[i] != a[j];
    assert(a.contains(a[i]) && a.contains(a[j]));
    assert(b.contains(a[i]) && b.contains(a[j]));
    let m = b.index_of(a[i]);
    let n = b.index_of(a[j]);
    if m < n {
        assert(b[m] == a[i] && b[n] == a[j]);
    } else {
        assert(b[n] == a[j] && b[m] == a[i]);
    }
}

/// Where the outcome of a task was verified.
#[derive(Debug, Clone, PartialEq, Eq)]
pub enum TaskOutcomeSource {
    VerifyCommand(String),
    Oracle(String),
    NoVerifyCommand,
    GateSkipped,
    Goal { goal_id: String, verified_by: Vec<String> },
}

/// The contents of a [`TaskOutcomeSource`].
#[verifier::ext_equal]
pub enum SourceModel {
    VerifyCommand(Seq<char>),
    Oracle(Seq<char>),
    NoVerifyCommand,
    GateSkipped,
    Goal { goal_id: Seq<char>, verified_by: Seq<Seq<char>> },
}

impl View for TaskOutcomeSource {
    type V = SourceModel;

    open spec fn view(&self) -> SourceModel {
        match *self {
            TaskOutcomeSource::VerifyCommand(id) => SourceModel::VerifyCommand(id@),
            TaskOutcomeSource::Oracle(id) => SourceModel::Oracle(id@),
            TaskOutcomeSource::NoVerifyCommand => SourceModel::NoVerifyCommand,
            TaskOutcomeSource::GateSkipped => SourceModel::GateSkipped,
            TaskOutcomeSource::Goal { goal_id, verified_by } => SourceModel::Goal {
                goal_id: goal_id@,
                verified_by: text::views(verified_by@),
            },
        }
    }
}

/// The source that a pair of stored columns denotes; `None` where the pair is not
/// a valid row.
pub open spec fn source_of_columns(kind: Seq<char>, id: Option<Seq<char>>) -> Option<SourceModel> {
    match id {
        Some(id) => if kind == "verify_command"@ {
            Some(SourceModel::VerifyCommand(id))
        } else if kind == "oracle"@ {
            Some(SourceModel::Oracle(id))
        } else if kind == "goal"@ {
            match text::char_at_or_after(id, ':', 0) {
                Some(at) => Some(
                    SourceModel::Goal {
                        goal_id: id.take(at),
                        verified_by: text::pieces(id.skip(at + 1), '+'),
                    },
                ),
                None => None,
            }
        } else {
            None
        },
        None => if kind == "no_verify_command"@ {
            Some(SourceModel::NoVerifyCommand)
        } else if kind == "gate_skipped"@ {
            Some(SourceModel::GateSkipped)
        } else {
            None
        },
    }
}

/// The stored columns of a source.
pub open spec fn columns_of_source(source: SourceModel) -> (Seq<char>, Option<Seq<char>>) {
    match source {
        SourceModel::VerifyCommand(id) => ("verify_command"@, Some(id)),
        SourceModel::Oracle(id) => ("oracle"@, Some(id)),
        SourceModel::NoVerifyCommand => ("no_verify_command"@, None),
        SourceModel::GateSkipped => ("gate_skipped"@, None),
        SourceModel::Goal { goal_id, verified_by } => (
            "goal"@,
            Some(goal_id + ":"@ + text::joined(verified_by, "+"@)),
        ),
    }
}

/// Decodes one durable pair of source columns.
///
/// `gate_skipped` decodes to its own variant, so promotion and audit keep seeing
/// the reason that was actually recorded.
pub fn task_outcome_source_from_columns(source_kind: &str, source_id: Option<String>) -> (r: Option<
    TaskOutcomeSource,
>)
    ensures
        match r {
            Some(source) => source_of_columns(source_kind@, text::opt_view(source_id)) == Some(
                source@,
            ),
            None => source_of_columns(source_kind@, text::opt_view(source_id)) is None,
        },
{
    match source_id {
        Some(id) => {
            if text::same(source_kind, "verify_command") {
                Some(TaskOutcomeSource::VerifyCommand(id))
            } else if text::same(source_kind, "oracle") {
                Some(TaskOutcomeSource::Oracle(id))
            } else if text::same(source_kind, "goal") {
                let chars = text::chars_of(&id);
                match text::find_char(&chars, ':') {
                    None => None,
                    Some(at) => {
                        let end: usize = chars.len();
                        assert(at < end);
                        let goal_id = text::string_of(&chars, 0, at);
                        let rest = text::string_of(&chars, at + 1, end);
                        let rest = text::chars_of(&rest);
                        let verified_by = text::split_pieces(&rest, '+');
                        proof {
                            assert(chars@.subrange(0, at as int) =~= chars@.take(at as int));
                            assert(chars@.subrange(at + 1, chars@.len() as int) =~= chars@.skip(
                                at + 1,
                            ));
                        }
                        Some(TaskOutcomeSource::Goal { goal_id, verified_by })
                    },
                }
            } else {
                None
            }
        },
        None => {
            if text::same(source_kind, "no_verify_command") {
                Some(TaskOutcomeSource::NoVerifyCommand)
            } else if text::same(source_kind, "gate_skipped") {
                Some(TaskOutcomeSource::GateSkipped)
            } else {
                None
            }
        },
    }
}

/// Encodes a source as its durable pair of columns.
pub fn task_outcome_source_columns(source: &TaskOutcomeSource) -> (r: (
    &'static str,
    Option<String>,
))
    ensures
        r.0@ == columns_of_source(source@).0,
        text::opt_view(r.1) == columns_of_source(source@).1,
{
    match source {
        TaskOutcomeSource::VerifyCommand(id) => ("verify_command", Some(id.clone())),
        TaskOutcomeSource::Oracle(id) => ("oracle", Some(id.clone())),
        TaskOutcomeSource::NoVerifyCommand => ("no_verify_command", None),
        TaskOutcomeSource::GateSkipped => ("gate_skipped", None),
        TaskOutcomeSource::Goal { goal_id, verified_by } => {
            let verified = text::join(verified_by, "+");
            ("goal", Some(text::join3(goal_id, ":", &verified)))
        },
    }
}

proof fn lemma_first_colon(a: Seq<char>, b: Seq<char>, from: int)
    requires
        0 <= from <= a.len(),
        !a.contains(':'),
    ensures
        text::char_at_or_after(a + seq![':'] + b, ':', from) == Some(a.len() as int),
    decreases a.len() - from,
{
    let s = a + seq![':'] + b;
    if from < a.len() {
        assert(s[from] == a[from]);
        assert(a.contains(a[from]));
        lemma_first_colon(a, b, from + 1);
    } else {
        assert(s[from] == ':');
    }
}

/// A stored source decodes to the source that was stored. A goal round-trips where
/// its id holds no colon and its verifiers are non-empty and hold no plus sign.
pub proof fn law_sources_round_trip(source: SourceModel)
    requires
        source matches SourceModel::Goal { goal_id, verified_by } ==> !goal_id.contains(':')
            && forall|i: int|
            0 <= i < verified_by.len() ==> (#[trigger] verified_by[i]).len() > 0
                && !verified_by[i].contains('+'),
    ensures
        source_of_columns(columns_of_source(source).0, columns_of_source(source).1) == Some(source),
{
    reveal_strlit("verify_command");
    reveal_strlit("oracle");
    reveal_strlit("goal");
    reveal_strlit("no_verify_command");
    reveal_strlit("gate_skipped");
    reveal_strlit(":");
    reveal_strlit("+");
    assert("verify_command"@.len() == 14);
    assert("oracle"@.len() == 6);
    assert("goal"@.len() == 4);
    assert("no_verify_command"@.len() == 17);
    assert("gate_skipped"@.len() == 12);
    match source {
        SourceModel::Goal { goal_id, verified_by } => {
            assert(":"@ =~= seq![':']);
            assert("+"@ =~= seq!['+']);
            let rest = text::joined(verified_by, "+"@);
            let id = goal_id + ":"@ + rest;
            lemma_first_colon(goal_id, rest, 0);
            text::lemma_split_of_joined(verified_by, '+');
            assert(id.take(goal_id.len() as int) =~= goal_id);
            assert(id.skip(goal_id.len() as int + 1) =~= rest);
        },
        _ => {},
    }
}

} // verus!
