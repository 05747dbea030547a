//! Lifecycle changes together with what readers see of them.
//!
//! What a committed change takes away is hidden from readers at once; a change that is
//! refused leaves them with what they had.

use crate::coordinator::{CoordinatedMutationError, CoordinatorError};
use crate::index;
use crate::index::ImmutableSkillIndex;
use crate::lifecycle;
use crate::lifecycle::{
    ApprovalAuthorization, EvidenceSnapshot, HumanApproval, LifecycleError, LifecycleFault,
    LifecycleStatus, PairMove, PromotionAuthority, ReplacementTransitionOutcome,
    ReplacementTransitionRequest, TransitionOutcome,
};
use crate::policy::RateFindings;
use crate::promotion;
use crate::promotion::StoredEvidence;
use crate::store::{SkillStore, StoreError};
use crate::text;
use vstd::prelude::*;
use vstd::string::*;

verus! {

/// Why a lifecycle change was not published: it was refused, or it was made and its
/// publication failed.
#[derive(Debug)]
pub enum LifecyclePublicationError {
    Lifecycle(LifecycleError),
    Publication(CoordinatorError),
}

impl From<CoordinatedMutationError<LifecycleError>> for LifecyclePublicationError {
    fn from(error: CoordinatedMutationError<LifecycleError>) -> (r: LifecyclePublicationError) {
        match error {
            CoordinatedMutationError::Mutation(e) => LifecyclePublicationError::Lifecycle(e),
            CoordinatedMutationError::Publication(e) => LifecyclePublicationError::Publication(e),
        }
    }
}

impl vstd::std_specs::convert::FromSpecImpl<CoordinatedMutationError<LifecycleError>> for LifecyclePublicationError {
    open spec fn obeys_from_spec() -> bool {
        true
    }

    open spec fn from_spec(
        error: CoordinatedMutationError<LifecycleError>,
    ) -> LifecyclePublicationError {
        match error {
            CoordinatedMutationError::Mutation(e) => LifecyclePublicationError::Lifecycle(e),
            CoordinatedMutationError::Publication(e) => LifecyclePublicationError::Publication(e),
        }
    }
}

/// The generation before readers, changed along with the lifecycle.
pub struct CoordinatedLifecycle {
    pub published: ImmutableSkillIndex,
}

/// A generation holds the same skills as another, without some of them.
pub open spec fn hides(
    before: ImmutableSkillIndex,
    after: ImmutableSkillIndex,
    generation: u64,
    ids: Seq<Seq<char>>,
) -> bool {
    &&& after.well_formed()
    &&& after.generation == generation
    &&& after.model == before.model
    &&& after.entries == before.entries
    &&& forall|i: int|
        0 <= i < before.entries@.len() ==> #[trigger] after.hidden@[i] == (before.hidden@[i]
            || index::names_position(before, ids, i))
}

/// The generation number that a change committed, as readers know it.
#[verifier::truncate]
fn reader_generation(generation: i64) -> (r: u64)
    ensures
        r == generation as u64,
{
    generation as u64
}

impl CoordinatedLifecycle {
    pub fn new(published: ImmutableSkillIndex) -> (r: CoordinatedLifecycle)
        ensures
            r.published == published,
    {
        CoordinatedLifecycle { published }
    }

    fn hide_one(self, generation: i64, id: &str) -> (r: CoordinatedLifecycle)
        requires
            self.published.well_formed(),
        ensures
            hides(self.published, r.published, generation as u64, seq![id@]),
            !r.published.offers(id@),
            forall|other: Seq<char>|
                other != id@ ==> #[trigger] r.published.offers(other) == self.published.offers(
                    other,
                ),
    {
        let mut ids: Vec<String> = Vec::new();
        ids.push(id.to_owned());
        assert(text::views(ids@) =~= seq![id@]);
        let published = self.published.without_ids(reader_generation(generation), &ids);
        proof {
            assert(seq![id@][0] == id@);
            assert(seq![id@].contains(id@));
            index::law_hidden_skills_are_not_offered(self.published, published, seq![id@], id@);
            assert forall|other: Seq<char>| other != id@ implies #[trigger] published.offers(other)
                == self.published.offers(other) by {
                assert(!seq![id@].contains(other));
                index::law_hidden_skills_are_not_offered(
                    self.published,
                    published,
                    seq![id@],
                    other,
                );
            }
        }
        CoordinatedLifecycle { published }
    }

    /// Promotes a replacement on its evidence. Once it is committed its predecessor is
    /// hidden from readers, and nothing else is.
    pub fn promote_replacement(
        self,
        store: &mut SkillStore,
        request: &ReplacementTransitionRequest,
        stored: &StoredEvidence,
        rates: RateFindings,
        created_at: i64,
    ) -> (r: (CoordinatedLifecycle, Result<ReplacementTransitionOutcome, LifecycleError>))
        requires
            self.published.well_formed(),
            lifecycle::pair_fits(*request, *old(store)),
        ensures
            exists|held: Option<String>| #[trigger]
                text::opt_view(held) == promotion::finding(
                    old(store)@,
                    *request,
                    *stored,
                    rates,
                ) && lifecycle::concludes(
                    lifecycle::pair_result(
                        old(store)@,
                        *request,
                        lifecycle::promotion_from(LifecycleStatus::Active),
                        PromotionAuthority::EvidenceThreshold { held },
                        created_at,
                    ),
                    old(store)@,
                    r.1,
                    |v: ReplacementTransitionOutcome| v,
                    final(store)@,
                ),
            self.follows_promotion(r.0, r.1, request.predecessor_id@),
    {
        let moves = PairMove {
            candidate_from: LifecycleStatus::Canary,
            candidate_to: LifecycleStatus::Active,
            predecessor_from: LifecycleStatus::Active,
            predecessor_to: LifecycleStatus::Superseded,
        };
        let held = promotion::find_hold(store, request, stored, rates);
        let ghost reason = held;
        let authority = PromotionAuthority::EvidenceThreshold { held };
        assert(text::opt_view(reason) == promotion::finding(old(store)@, *request, *stored, rates));
        match lifecycle::replace_pair_in(store, request, moves, &authority, created_at) {
            Ok(outcome) => {
                let next = self.hide_one(outcome.desired_generation, &request.predecessor_id);
                (next, Ok(outcome))
            },
            Err(e) => (self, Err(e)),
        }
    }

    /// What readers see after a pair has moved: the one that left is hidden, and nothing
    /// else is; a refusal changes nothing.
    pub open spec fn follows_promotion(
        self,
        after: CoordinatedLifecycle,
        result: Result<ReplacementTransitionOutcome, LifecycleError>,
        left: Seq<char>,
    ) -> bool {
        match result {
            Ok(outcome) => {
                &&& hides(
                    self.published,
                    after.published,
                    outcome.desired_generation as u64,
                    seq![left],
                )
                &&& !after.published.offers(left)
                &&& forall|other: Seq<char>|
                    other != left ==> #[trigger] after.published.offers(other)
                        == self.published.offers(other)
            },
            Err(_) => after == self,
        }
    }

    /// Promotes a replacement by the action of the local owner. Once it is committed its
    /// predecessor is hidden from readers, and nothing else is.
    pub fn promote_replacement_by_local_owner(
        self,
        store: &mut SkillStore,
        request: &ReplacementTransitionRequest,
        approval: &HumanApproval,
        authorization: &ApprovalAuthorization,
        consumed: Result<(), StoreError>,
        predecessor_from: LifecycleStatus,
        created_at: i64,
    ) -> (r: (CoordinatedLifecycle, Result<ReplacementTransitionOutcome, LifecycleError>))
        requires
            self.published.well_formed(),
            lifecycle::pair_fits(*request, *old(store)),
        ensures
            lifecycle::concludes(
                if predecessor_from == LifecycleStatus::Active || predecessor_from
                    == LifecycleStatus::Quarantined {
                    lifecycle::pair_result(
                        old(store)@,
                        *request,
                        lifecycle::promotion_from(predecessor_from),
                        PromotionAuthority::LocalOwner { approval, authorization, consumed },
                        created_at,
                    )
                } else {
                    Err(
                        LifecycleFault::IllegalTransition {
                            role: "predecessor"@,
                            skill_id: request.predecessor_id@,
                            from: predecessor_from,
                            to: LifecycleStatus::Superseded,
                        },
                    )
                },
                old(store)@,
                r.1,
                |v: ReplacementTransitionOutcome| v,
                final(store)@,
            ),
            self.follows_promotion(r.0, r.1, request.predecessor_id@),
    {
        match predecessor_from {
            LifecycleStatus::Active | LifecycleStatus::Quarantined => {},
            _ => {
                return (
                    self,
                    Err(
                        LifecycleError::IllegalTransition {
                            role: "predecessor",
                            skill_id: request.predecessor_id.clone(),
                            from: predecessor_from,
                            to: LifecycleStatus::Superseded,
                        },
                    ),
                );
            },
        }
        let moves = PairMove {
            candidate_from: LifecycleStatus::Canary,
            candidate_to: LifecycleStatus::Active,
            predecessor_from,
            predecessor_to: LifecycleStatus::Superseded,
        };
        let authority = PromotionAuthority::LocalOwner { approval, authorization, consumed };
        match lifecycle::replace_pair_in(store, request, moves, &authority, created_at) {
            Ok(outcome) => {
                let next = self.hide_one(outcome.desired_generation, &request.predecessor_id);
                (next, Ok(outcome))
            },
            Err(e) => (self, Err(e)),
        }
    }

    /// Takes a promotion back. Once that is committed the candidate is hidden from
    /// readers, and nothing else is.
    pub fn rollback_replacement(
        self,
        store: &mut SkillStore,
        request: &ReplacementTransitionRequest,
        created_at: i64,
    ) -> (r: (CoordinatedLifecycle, Result<ReplacementTransitionOutcome, LifecycleError>))
        requires
            self.published.well_formed(),
            lifecycle::pair_fits(*request, *old(store)),
        ensures
            lifecycle::concludes(
                lifecycle::pair_result(
                    old(store)@,
                    *request,
                    lifecycle::rollback_move(),
                    PromotionAuthority::EvidenceThreshold { held: None },
                    created_at,
                ),
                old(store)@,
                r.1,
                |v: ReplacementTransitionOutcome| v,
                final(store)@,
            ),
            self.follows_promotion(r.0, r.1, request.candidate_id@),
    {
        let moves = PairMove {
            candidate_from: LifecycleStatus::Active,
            candidate_to: LifecycleStatus::Quarantined,
            predecessor_from: LifecycleStatus::Superseded,
            predecessor_to: LifecycleStatus::Active,
        };
        let authority = PromotionAuthority::EvidenceThreshold { held: None };
        match lifecycle::replace_pair_in(store, request, moves, &authority, created_at) {
            Ok(outcome) => {
                let next = self.hide_one(outcome.desired_generation, &request.candidate_id);
                (next, Ok(outcome))
            },
            Err(e) => (self, Err(e)),
        }
    }

    /// Activates a root. It hides nothing: the root is offered once its generation is
    /// built.
    pub fn activate_root(
        self,
        store: &mut SkillStore,
        idempotency_key: &str,
        skill_id: &str,
        approval: &HumanApproval,
        authorization: &ApprovalAuthorization,
        snapshot: &EvidenceSnapshot,
        consumed: &Result<(), StoreError>,
        created_at: i64,
    ) -> (r: (CoordinatedLifecycle, Result<TransitionOutcome, LifecycleError>))
        requires
            self.published.well_formed(),
            approval.expected_row_version < i64::MAX,
            old(store).desired_generation < i64::MAX,
            old(store).next_transition_id < i64::MAX,
        ensures
            lifecycle::concludes(
                lifecycle::activation_result(
                    old(store)@,
                    idempotency_key@,
                    skill_id@,
                    *approval,
                    *authorization,
                    snapshot@,
                    lifecycle::consumption(*consumed),
                    created_at,
                ),
                old(store)@,
                r.1,
                |v: TransitionOutcome| v@,
                final(store)@,
            ),
            match r.1 {
                Ok(outcome) => hides(
                    self.published,
                    r.0.published,
                    outcome.desired_generation as u64,
                    Seq::empty(),
                ),
                Err(_) => r.0 == self,
            },
    {
        match lifecycle::activate_root_in(
            store,
            idempotency_key,
            skill_id,
            approval,
            authorization,
            snapshot,
            consumed,
            created_at,
        ) {
            Ok(outcome) => {
                let ids: Vec<String> = Vec::new();
                assert(text::views(ids@) =~= Seq::empty());
                let generation = reader_generation(outcome.desired_generation);
                let published = self.published.without_ids(generation, &ids);
                (CoordinatedLifecycle { published }, Ok(outcome))
            },
            Err(e) => (self, Err(e)),
        }
    }
}

} // verus!
