//! Embedding migration and publication of retrieval generations.
//!
//! A generation is published whole. Removals are published at once; additions only
//! after durable state has acknowledged the generation that holds them.

use crate::artifact::{CapabilityTier, SkillArtifact};
use crate::backoff;
use crate::digest;
use crate::embed;
use crate::embed::{EmbeddingError, EmbeddingFault, ModelMetadata};
use crate::held_out::StoreFailure;
use crate::index::{SkillRecordMetadata, StoredEmbedding};
use crate::lifecycle::LifecycleStatus;
use crate::text;
use vstd::prelude::*;
use vstd::string::*;

verus! {

/// How many documents are embedded in one request.
pub const EMBEDDING_BATCH_SIZE: usize = 256;

/// Why a publication failed.
#[derive(Debug, Clone, PartialEq, Eq)]
pub enum CoordinatorError {
    Store(StoreFailure),
    Constraint(String),
    MalformedEmbedding { skill_id: String, reason: &'static str },
    Embedding(EmbeddingError),
    Index(String),
    Poisoned,
}

/// The contents of a [`CoordinatorError`].
#[verifier::ext_equal]
pub enum CoordinatorFault {
    Store(StoreFailure),
    Constraint(Seq<char>),
    MalformedEmbedding { skill_id: Seq<char>, reason: Seq<char> },
    Embedding(EmbeddingFault),
    Index(Seq<char>),
    Poisoned,
}

impl View for CoordinatorError {
    type V = CoordinatorFault;

    open spec fn view(&self) -> CoordinatorFault {
        match *self {
            CoordinatorError::Store(e) => CoordinatorFault::Store(e),
            CoordinatorError::Constraint(s) => CoordinatorFault::Constraint(s@),
            CoordinatorError::MalformedEmbedding { skill_id, reason } => {
                CoordinatorFault::MalformedEmbedding { skill_id: skill_id@, reason: reason@ }
            },
            CoordinatorError::Embedding(e) => CoordinatorFault::Embedding(e@),
            CoordinatorError::Index(s) => CoordinatorFault::Index(s@),
            CoordinatorError::Poisoned => CoordinatorFault::Poisoned,
        }
    }
}

/// What became of a publication.
#[derive(Debug, Clone, PartialEq, Eq)]
pub struct PublicationReport {
    pub generation: u64,
    pub removal_only: bool,
    pub diagnostic: Option<String>,
}

/// The contents of a [`PublicationReport`].
#[verifier::ext_equal]
pub struct PublicationModel {
    pub generation: u64,
    pub removal_only: bool,
    pub diagnostic: Option<Seq<char>>,
}

impl View for PublicationReport {
    type V = PublicationModel;

    open spec fn view(&self) -> PublicationModel {
        PublicationModel {
            generation: self.generation,
            removal_only: self.removal_only,
            diagnostic: text::opt_view(self.diagnostic),
        }
    }
}

/// The durable state of the generations.
#[derive(Debug, Clone, PartialEq, Eq)]
pub struct GenerationState {
    pub desired_generation: u64,
    pub applied_generation: u64,
    pub publication_mode: String,
    pub model_id: String,
    pub model_revision: String,
    pub dimensions: usize,
    pub normalized: bool,
}

impl GenerationState {
    /// What is applied is what is desired, with all its additions.
    pub open spec fn complete(self) -> bool {
        self.desired_generation == self.applied_generation && self.publication_mode@ == "full"@
    }

    /// The state speaks of a model.
    pub open spec fn is_for(self, model: ModelMetadata) -> bool {
        &&& self.model_id@ == model.model_id@
        &&& self.model_revision@ == model.model_revision@
        &&& self.dimensions == model.dimensions
        &&& self.normalized == model.normalized
    }

    /// Whether what is applied is what is desired, with all its additions.
    pub fn is_complete(&self) -> (r: bool)
        ensures
            r == self.complete(),
    {
        self.desired_generation == self.applied_generation && text::same(
            &self.publication_mode,
            "full",
        )
    }

    /// Whether the state speaks of another model, so that a new generation is due
    /// before anything is published.
    pub fn model_changed(&self, model: &ModelMetadata) -> (r: bool)
        ensures
            r == !self.is_for(*model),
    {
        !text::same(&self.model_id, &model.model_id) || !text::same(
            &self.model_revision,
            &model.model_revision,
        ) || self.dimensions != model.dimensions || self.normalized != model.normalized
    }

    /// A generation is the one that is both applied and desired.
    pub open spec fn at(self, generation: u64) -> bool {
        self.applied_generation == generation && self.desired_generation == generation
    }

    /// Whether a generation is the one that is both applied and desired.
    pub fn is_current(&self, generation: u64) -> (r: bool)
        ensures
            r == self.at(generation),
    {
        self.applied_generation == generation && self.desired_generation == generation
    }
}

/// Whether readers should get a new generation.
pub fn needs_refresh(in_flight: bool, hydrated: bool, state: &GenerationState) -> (r: bool)
    ensures
        r == (in_flight || !hydrated || state.desired_generation > state.applied_generation
            || state.publication_mode@ != "full"@),
{
    in_flight || !hydrated || state.desired_generation > state.applied_generation || !text::same(
        &state.publication_mode,
        "full",
    )
}

/// What the store knows of a declared skill.
pub struct DeclaredRow {
    /// Its status, if there is such a skill.
    pub status: Result<Option<String>, String>,
    /// Its artifact; it is read only where the skill is active.
    pub artifact: Result<Option<SkillArtifact>, String>,
}

/// What a declaration resolves to: an active skill whose identity holds, nothing, or why it
/// cannot be read.
pub open spec fn resolves(row: DeclaredRow, r: Result<Option<SkillArtifact>, String>) -> bool {
    match row.status {
        Err(e) => r == Err::<Option<SkillArtifact>, String>(e),
        Ok(None) => r == Ok::<Option<SkillArtifact>, String>(None),
        Ok(Some(status)) => if status@ != "active"@ {
            r == Ok::<Option<SkillArtifact>, String>(None)
        } else {
            match row.artifact {
                Ok(Some(artifact)) => match artifact@.stored_fault() {
                    None => r == Ok::<Option<SkillArtifact>, String>(Some(artifact)),
                    Some(f) => r is Err && r->Err_0@ == f.sentence(),
                },
                unread => r == unread,
            }
        },
    }
}

/// Resolves declared skills. Only active ones whose identity holds resolve; one that was
/// tampered with or cannot be read costs only its own declaration.
pub fn resolve_active_ids(rows: Vec<DeclaredRow>) -> (r: Vec<Result<Option<SkillArtifact>, String>>)
    ensures
        r@.len() == rows@.len(),
        forall|i: int| 0 <= i < rows@.len() ==> resolves(#[trigger] rows@[i], r@[i]),
{
    let mut rest = rows;
    let ghost all = rest@;
    let mut out: Vec<Result<Option<SkillArtifact>, String>> = Vec::new();
    assert(all.skip(0) =~= all);
    while rest.len() > 0
        invariant
            out@.len() <= all.len(),
            rest@ == all.skip(out@.len() as int),
            forall|i: int| 0 <= i < out@.len() ==> resolves(#[trigger] all[i], out@[i]),
        decreases rest@.len(),
    {
        let ghost k = out@.len() as int;
        let row = rest.remove(0);
        proof {
            assert(row == all[k]);
            assert(rest@ =~= all.skip(k + 1));
        }
        let item = match row.status {
            Err(e) => Err(e),
            Ok(None) => Ok(None),
            Ok(Some(status)) => {
                if text::same(&status, "active") {
                    match row.artifact {
                        Ok(Some(artifact)) => match artifact.verify_identity() {
                            Ok(()) => Ok(Some(artifact)),
                            Err(e) => Err(e.message()),
                        },
                        unread => unread,
                    }
                } else {
                    Ok(None)
                }
            },
        };
        out.push(item);
    }
    out
}

/// A turn may bind a skill with this status.
pub open spec fn bindable(status: Option<String>) -> bool {
    status matches Some(s) && (s@ == "active"@ || s@ == "canary"@)
}

/// The ids that a turn may still bind, each once.
pub open spec fn bindable_ids(
    ids: Seq<Seq<char>>,
    statuses: Seq<Option<String>>,
    n: nat,
) -> Seq<Seq<char>>
    decreases n,
{
    if n == 0 {
        Seq::empty()
    } else {
        let before = bindable_ids(ids, statuses, (n - 1) as nat);
        if bindable(statuses[n - 1]) && !before.contains(ids[n - 1]) {
            before.push(ids[n - 1])
        } else {
            before
        }
    }
}

/// Narrows a selection to the skills that durable state still lets a turn bind: those
/// that are there, and active or canary. `statuses` are those of the ids.
pub fn retain_bindable_ids(ids: &Vec<String>, statuses: &Vec<Option<String>>) -> (r: Vec<String>)
    requires
        ids@.len() == statuses@.len(),
    ensures
        text::views(r@) == bindable_ids(text::views(ids@), statuses@, ids@.len()),
{
    let ghost all = text::views(ids@);
    let mut out: Vec<String> = Vec::new();
    let mut i: usize = 0;
    assert(text::views(out@) =~= Seq::empty());
    while i < ids.len()
        invariant
            i <= ids@.len(),
            ids@.len() == statuses@.len(),
            all == text::views(ids@),
            text::views(out@) == bindable_ids(all, statuses@, i as nat),
        decreases ids@.len() - i,
    {
        let ghost before = text::views(out@);
        assert(all[i as int] == ids@[i as int]@);
        let keep = match &statuses[i] {
            Some(status) => text::same(status, "active") || text::same(status, "canary"),
            None => false,
        };
        if keep && !text::contains_text(&out, &ids[i]) {
            let id = ids[i].clone();
            out.push(id);
            assert(text::views(out@) =~= before.push(id@));
        }
        i = i + 1;
    }
    out
}

proof fn lemma_bindable_ids(
    ids: Seq<Seq<char>>,
    statuses: Seq<Option<String>>,
    n: nat,
    id: Seq<char>,
)
    requires
        n <= ids.len(),
        ids.len() == statuses.len(),
    ensures
        bindable_ids(ids, statuses, n).contains(id) <==> exists|i: int|
            0 <= i < n && #[trigger] ids[i] == id && bindable(statuses[i]),
    decreases n,
{
    if n > 0 {
        let m = (n - 1) as nat;
        lemma_bindable_ids(ids, statuses, m, id);
        let before = bindable_ids(ids, statuses, m);
        let after = bindable_ids(ids, statuses, n);
        if before.contains(id) {
            let k = before.index_of(id);
            assert(after[k] == id);
            let i = choose|i: int| 0 <= i < m && #[trigger] ids[i] == id && bindable(statuses[i]);
            assert(ids[i] == id);
        } else if bindable(statuses[n - 1]) && ids[n - 1] == id {
            assert(after[before.len() as int] == id);
        } else if after.contains(id) {
            let k = after.index_of(id);
            assert(k < before.len() ==> before[k] == id);
        }
    }
}

/// Exactly the given ids with a bindable status are kept, so one that was purged,
/// retired or quarantined is never bound.
pub proof fn law_only_bindable_ids_are_kept(
    ids: Seq<Seq<char>>,
    statuses: Seq<Option<String>>,
    id: Seq<char>,
)
    requires
        ids.len() == statuses.len(),
    ensures
        bindable_ids(ids, statuses, ids.len()).contains(id) <==> exists|i: int|
            0 <= i < ids.len() && #[trigger] ids[i] == id && bindable(statuses[i]),
{
    lemma_bindable_ids(ids, statuses, ids.len(), id);
}

/// A revision that may replace another, with the complete production invocations it
/// has had.
#[derive(Debug, Clone, PartialEq, Eq)]
pub struct CandidateRow {
    pub id: String,
    pub supersedes_id: Option<String>,
    pub lineage_root_id: String,
    pub status: String,
    pub invocations: u64,
    pub created_at: i64,
}

/// A row is a canary that replaces a revision in its lineage.
pub open spec fn is_replacement(row: CandidateRow, active: Seq<char>, lineage: Seq<char>) -> bool {
    &&& text::opt_view(row.supersedes_id) == Some(active)
    &&& row.lineage_root_id@ == lineage
    &&& row.status@ == "canary"@
}

/// A row goes before another: fewer invocations, then older, then by id.
pub open spec fn goes_before(a: CandidateRow, b: CandidateRow) -> bool {
    a.invocations < b.invocations || (a.invocations == b.invocations && (a.created_at
        < b.created_at || (a.created_at == b.created_at && a.id@ != b.id@ && text::lex_le(
        a.id@,
        b.id@,
    ))))
}

/// The position of the replacement that goes first among the first `n` rows.
pub open spec fn first_replacement(
    rows: Seq<CandidateRow>,
    active: Seq<char>,
    lineage: Seq<char>,
    n: nat,
) -> Option<int>
    decreases n,
{
    if n == 0 {
        None
    } else {
        let row = rows[n - 1];
        match first_replacement(rows, active, lineage, (n - 1) as nat) {
            None => if is_replacement(row, active, lineage) {
                Some(n - 1)
            } else {
                None
            },
            Some(k) => if is_replacement(row, active, lineage) && goes_before(row, rows[k]) {
                Some(n - 1)
            } else {
                Some(k)
            },
        }
    }
}

/// The position of the canary to be tried in place of an active revision, if any.
pub open spec fn chosen_replacement(
    active: Seq<char>,
    lineage: Option<String>,
    rows: Seq<CandidateRow>,
) -> Option<int> {
    match lineage {
        None => None,
        Some(root) => first_replacement(rows, active, root@, rows.len()),
    }
}

/// A position as a number.
pub open spec fn picked(r: Option<usize>) -> Option<int> {
    match r {
        Some(k) => Some(k as int),
        None => None,
    }
}

/// Picks the canary that is to be tried in place of an active revision; `lineage` is
/// that of the revision, if it is active. Root canaries replace nothing.
pub fn replacement_candidate_locked(
    active_id: &str,
    lineage: &Option<String>,
    rows: &Vec<CandidateRow>,
) -> (r: Option<usize>)
    ensures
        picked(r) == chosen_replacement(active_id@, *lineage, rows@),
        r matches Some(k) ==> k < rows@.len(),
{
    let root = match lineage {
        None => {
            return None;
        },
        Some(root) => root,
    };
    let mut best: Option<usize> = None;
    let mut i: usize = 0;
    while i < rows.len()
        invariant
            i <= rows@.len(),
            match first_replacement(rows@, active_id@, root@, i as nat) {
                None => best is None,
                Some(k) => best is Some && best->0 == k && k < i,
            },
        decreases rows@.len() - i,
    {
        let row = &rows[i];
        let fits = text::is_text(&row.supersedes_id, active_id) && text::same(
            &row.lineage_root_id,
            root,
        ) && text::same(&row.status, "canary");
        if fits {
            match best {
                None => {
                    best = Some(i);
                },
                Some(k) => {
                    let other = &rows[k];
                    if row.invocations < other.invocations || (row.invocations == other.invocations
                        && (row.created_at < other.created_at || (row.created_at
                        == other.created_at && !text::same(&row.id, &other.id) && text::text_le(
                        &row.id,
                        &other.id,
                    )))) {
                        best = Some(i);
                    }
                },
            }
        }
        i = i + 1;
    }
    best
}

/// Picks the canary that is to be tried in place of an active revision, as long as the
/// generation that a turn has leased is the one that is applied and desired.
pub fn replacement_candidate(
    state: &GenerationState,
    expected_generation: u64,
    active_id: &str,
    lineage: &Option<String>,
    rows: &Vec<CandidateRow>,
) -> (r: Option<usize>)
    ensures
        picked(r) == if state.at(expected_generation) {
            chosen_replacement(active_id@, *lineage, rows@)
        } else {
            None
        },
        r matches Some(k) ==> k < rows@.len(),
{
    if !state.is_current(expected_generation) {
        return None;
    }
    replacement_candidate_locked(active_id, lineage, rows)
}

/// What routing knows of a canary.
#[derive(Debug, Clone, PartialEq, Eq)]
pub struct CanaryCandidate {
    pub candidate_id: String,
    pub lineage_root_id: String,
    pub status: LifecycleStatus,
    pub model_compatible: bool,
    pub identity_valid: bool,
    pub capability_tier: CapabilityTier,
    pub explicitly_idempotent: bool,
}

/// What routing is told of a canary.
pub fn canary_candidate(
    candidate_id: String,
    lineage_root_id: String,
    artifact: &SkillArtifact,
    embedding: Option<&StoredEmbedding>,
    model: &ModelMetadata,
) -> (r: CanaryCandidate)
    ensures
        r.candidate_id == candidate_id,
        r.lineage_root_id == lineage_root_id,
        r.status == LifecycleStatus::Canary,
        r.model_compatible == (embedding matches Some(e) && e.dimensions == model.dimensions
            && e.normalized == model.normalized),
        r.identity_valid == (artifact@.stored_fault() is None),
        r.capability_tier == artifact.capability.tier,
        r.explicitly_idempotent == (artifact.capability.tier == CapabilityTier::Pure),
{
    let model_compatible = match embedding {
        Some(e) => e.dimensions == model.dimensions && e.normalized == model.normalized,
        None => false,
    };
    CanaryCandidate {
        candidate_id,
        lineage_root_id,
        status: LifecycleStatus::Canary,
        model_compatible,
        identity_valid: artifact.verify_identity().is_ok(),
        capability_tier: artifact.capability.tier,
        explicitly_idempotent: artifact.capability.tier == CapabilityTier::Pure,
    }
}

/// The bytes of a fresh random identifier.
///
/// Calls `uuid::Uuid::new_v4` and takes its bytes. Which they are is chance; there
/// are always sixteen.
#[verifier::external_body]
pub(crate) fn fresh_uuid_bytes() -> (r: Vec<u8>)
    ensures
        r@.len() == 16,
{
    uuid::Uuid::new_v4().into_bytes().to_vec()
}

/// What is hashed into a routing secret.
pub open spec fn secret_preimage(unique: Seq<u8>) -> Seq<u8> {
    vstd::utf8::encode_utf8("mini-agent/local-canary-key/v1"@) + unique
}

/// The routing secret that random bytes make.
pub fn routing_secret(unique: &Vec<u8>) -> (r: Vec<u8>)
    ensures
        r@ == digest::sha256(secret_preimage(unique@)),
        r@.len() == 32,
{
    let mut bytes: Vec<u8> = Vec::new();
    digest::push_bytes(&mut bytes, "mini-agent/local-canary-key/v1".as_bytes());
    assert(bytes@ =~= vstd::utf8::encode_utf8("mini-agent/local-canary-key/v1"@));
    digest::push_bytes(&mut bytes, unique.as_slice());
    assert(bytes@ =~= secret_preimage(unique@));
    digest::sha256_bytes(&bytes)
}

/// A new routing secret.
pub fn fresh_routing_secret() -> (r: Vec<u8>)
    ensures
        exists|unique: Seq<u8>|
            unique.len() == 16 && r@ == #[trigger] digest::sha256(secret_preimage(unique)),
        r@.len() == 32,
{
    let unique = fresh_uuid_bytes();
    let r = routing_secret(&unique);
    assert(r@ == digest::sha256(secret_preimage(unique@)));
    r
}

/// Checks a stored routing secret.
pub fn routing_key(secret: Vec<u8>) -> (r: Result<Vec<u8>, CoordinatorError>)
    ensures
        if secret@.len() == 32 {
            r == Ok::<Vec<u8>, CoordinatorError>(secret)
        } else {
            r is Err && r->Err_0@ == CoordinatorFault::Constraint(
                "canary routing key has an invalid length"@,
            )
        },
{
    if secret.len() == 32 {
        Ok(secret)
    } else {
        Err(
            CoordinatorError::Constraint("canary routing key has an invalid length".to_owned()),
        )
    }
}

/// The routing key that was last used, and the generation it was used for.
#[derive(Debug, Clone, PartialEq, Eq)]
pub struct CachedRoutingKey {
    pub generation: u64,
    pub key: Vec<u8>,
}

/// How the routing key of a generation is had.
#[derive(Debug, PartialEq, Eq)]
pub enum RoutingKeyStep {
    /// It is at hand.
    Cached(Vec<u8>),
    /// It is stored; it is kept at hand for the generation.
    Stored(CachedRoutingKey),
    /// There is none yet: this secret is stored unless another was stored meanwhile,
    /// and what is stored is then read again.
    Create(Vec<u8>),
    Failed(CoordinatorError),
}

/// Decides how the routing key of a generation is had: from what is at hand, from what
/// is stored, or from the given new secret.
pub fn routing_key_for_generation(
    cached: &Option<CachedRoutingKey>,
    generation: u64,
    existing: Option<Vec<u8>>,
    fresh: Vec<u8>,
) -> (r: RoutingKeyStep)
    ensures
        if cached matches Some(c) && c.generation == generation {
            r matches RoutingKeyStep::Cached(key) && key@ == cached->0.key@
        } else {
            match existing {
                None => r == RoutingKeyStep::Create(fresh),
                Some(secret) => if secret@.len() == 32 {
                    r == RoutingKeyStep::Stored(CachedRoutingKey { generation, key: secret })
                } else {
                    r matches RoutingKeyStep::Failed(e) && e@ == CoordinatorFault::Constraint(
                        "canary routing key has an invalid length"@,
                    )
                },
            }
        },
{
    match cached {
        Some(c) => {
            if c.generation == generation {
                let mut key: Vec<u8> = Vec::new();
                digest::push_bytes(&mut key, c.key.as_slice());
                assert(key@ =~= c.key@);
                return RoutingKeyStep::Cached(key);
            }
        },
        None => {},
    }
    match existing {
        None => RoutingKeyStep::Create(fresh),
        Some(secret) => match routing_key(secret) {
            Ok(key) => RoutingKeyStep::Stored(CachedRoutingKey { generation, key }),
            Err(e) => RoutingKeyStep::Failed(e),
        },
    }
}

/// What a turn needs to route between active revisions and canaries: the candidate
/// for each active revision that has one.
pub struct RoutingContext {
    pub key: Vec<u8>,
    pub candidates: Vec<(String, SkillArtifact, CanaryCandidate)>,
}

/// A candidate with the active revision that it would replace.
pub type RoutedModel = (Seq<char>, SkillArtifact, CanaryCandidate);

pub open spec fn routed_from(id: Seq<char>) -> spec_fn(RoutedModel) -> bool {
    |c: RoutedModel| c.0 == id
}

/// The candidates with one more, in place of the one that its revision had.
pub open spec fn with_candidate(candidates: Seq<RoutedModel>, routed: RoutedModel) -> Seq<
    RoutedModel,
> {
    match crate::store::position(candidates, routed_from(routed.0)) {
        Some(at) => candidates.update(at, routed),
        None => candidates.push(routed),
    }
}

/// The candidates that were found for the first `n` active revisions: one for each
/// revision that has one, the last where it is named twice.
pub open spec fn found_candidates(
    ids: Seq<String>,
    found: Seq<Option<(SkillArtifact, CanaryCandidate)>>,
    n: nat,
) -> Seq<RoutedModel>
    decreases n,
{
    if n == 0 {
        Seq::empty()
    } else {
        let before = found_candidates(ids, found, (n - 1) as nat);
        match found[n - 1] {
            Some((artifact, candidate)) => with_candidate(
                before,
                (ids[n - 1]@, artifact, candidate),
            ),
            None => before,
        }
    }
}

pub open spec fn candidate_views(s: Seq<(String, SkillArtifact, CanaryCandidate)>) -> Seq<
    RoutedModel,
> {
    s.map_values(|c: (String, SkillArtifact, CanaryCandidate)| (c.0@, c.1, c.2))
}

/// No active revision has two candidates.
pub open spec fn routed_once(candidates: Seq<RoutedModel>) -> bool {
    forall|i: int, j: int|
        0 <= i < j < candidates.len() ==> (#[trigger] candidates[i]).0 != (
        #[trigger] candidates[j]).0
}

fn put_candidate(
    candidates: &mut Vec<(String, SkillArtifact, CanaryCandidate)>,
    id: &str,
    artifact: SkillArtifact,
    candidate: CanaryCandidate,
)
    requires
        routed_once(candidate_views(old(candidates)@)),
    ensures
        candidate_views(final(candidates)@) == with_candidate(
            candidate_views(old(candidates)@),
            (id@, artifact, candidate),
        ),
        routed_once(candidate_views(final(candidates)@)),
{
    let ghost all = candidate_views(candidates@);
    let ghost routed = (id@, artifact, candidate);
    let ghost p = routed_from(id@);
    let mut i: usize = 0;
    while i < candidates.len()
        invariant
            i <= candidates@.len(),
            all == candidate_views(candidates@),
            p == routed_from(id@),
            routed == (id@, artifact, candidate),
            routed_once(all),
            candidates@ == old(candidates)@,
            all == candidate_views(old(candidates)@),
            forall|j: int| 0 <= j < i ==> !p(#[trigger] all[j]),
        decreases candidates@.len() - i,
    {
        assert(all[i as int].0 == candidates@[i as int].0@);
        if text::same(&candidates[i].0, id) {
            proof {
                crate::store::lemma_position_found(all, p, i as int);
            }
            candidates.set(i, (id.to_owned(), artifact, candidate));
            proof {
                let after = candidate_views(candidates@);
                assert(after =~= all.update(i as int, routed));
                assert forall|k: int, l: int| 0 <= k < l < after.len() implies (
                #[trigger] after[k]).0 != (#[trigger] after[l]).0 by {
                    assert(all[k].0 != all[l].0);
                }
            }
            return;
        }
        i = i + 1;
    }
    proof {
        crate::store::lemma_position_missing(all, p);
    }
    candidates.push((id.to_owned(), artifact, candidate));
    proof {
        let after = candidate_views(candidates@);
        assert(after =~= all.push(routed));
        assert forall|k: int, l: int| 0 <= k < l < after.len() implies (#[trigger] after[k]).0 != (
        #[trigger] after[l]).0 by {
            assert(!p(all[k]));
        }
    }
}

/// Puts the routing state of a selection together; there is none where the generation
/// that the turn has leased is no longer the one that is applied and desired. `found`
/// holds the candidate of each active revision.
pub fn routing_context(
    state: &GenerationState,
    expected_generation: u64,
    key: Vec<u8>,
    active_ids: &Vec<String>,
    found: Vec<Option<(SkillArtifact, CanaryCandidate)>>,
) -> (r: Option<RoutingContext>)
    requires
        active_ids@.len() == found@.len(),
    ensures
        match r {
            None => !state.at(expected_generation),
            Some(context) => {
                &&& state.at(expected_generation)
                &&& context.key == key
                &&& candidate_views(context.candidates@) == found_candidates(
                    active_ids@,
                    found@,
                    active_ids@.len(),
                )
                &&& routed_once(candidate_views(context.candidates@))
            },
        },
{
    if !state.is_current(expected_generation) {
        return None;
    }
    let ghost all = found@;
    let mut rest = found;
    let mut candidates: Vec<(String, SkillArtifact, CanaryCandidate)> = Vec::new();
    let mut i: usize = 0;
    proof {
        assert(all.skip(0) =~= all);
        assert(candidate_views(candidates@) =~= found_candidates(active_ids@, all, 0));
    }
    while i < active_ids.len()
        invariant
            i <= active_ids@.len(),
            all.len() == active_ids@.len(),
            rest@ == all.skip(i as int),
            candidate_views(candidates@) == found_candidates(active_ids@, all, i as nat),
            routed_once(candidate_views(candidates@)),
        decreases active_ids@.len() - i,
    {
        let answer = rest.remove(0);
        assert(answer == all[i as int]);
        match answer {
            Some((artifact, candidate)) => {
                put_candidate(&mut candidates, &active_ids[i], artifact, candidate);
            },
            None => {},
        }
        assert(rest@ =~= all.skip(i + 1));
        i = i + 1;
    }
    Some(RoutingContext { key, candidates })
}

/// The failures of rebuilds in a row, and when the next may start. Times are in
/// milliseconds.
#[derive(Debug, Clone, PartialEq, Eq)]
pub struct RebuildBackoff {
    pub consecutive_failures: u32,
    pub retry_not_before: Option<u64>,
    pub last_error: Option<String>,
}

impl Default for RebuildBackoff {
    fn default() -> (r: RebuildBackoff)
        ensures
            r == (RebuildBackoff {
                consecutive_failures: 0,
                retry_not_before: None,
                last_error: None,
            }),
    {
        RebuildBackoff { consecutive_failures: 0, retry_not_before: None, last_error: None }
    }
}

/// A count after one more, held at the largest there is.
pub open spec fn one_more(n: u32) -> u32 {
    if n == u32::MAX {
        n
    } else {
        (n + 1) as u32
    }
}

impl RebuildBackoff {
    /// The next rebuild may not start yet.
    pub open spec fn holds_at(self, now: u64) -> bool {
        self.retry_not_before matches Some(t) && now < t
    }

    /// Whether the next rebuild may not start yet.
    pub fn is_active(&self, now: u64) -> (r: bool)
        ensures
            r == self.holds_at(now),
    {
        match self.retry_not_before {
            Some(t) => now < t,
            None => false,
        }
    }

    /// Counts a failure and puts the next rebuild off.
    pub fn record_failure(&mut self, error: String, now: u64)
        requires
            now <= u64::MAX - 60_000,
        ensures
            final(self).consecutive_failures == one_more(old(self).consecutive_failures),
            final(self).retry_not_before == Some(
                (now + 1000 * backoff::rebuild_seconds(
                    one_more(old(self).consecutive_failures),
                )) as u64,
            ),
            final(self).last_error == Some(error),
    {
        if self.consecutive_failures < u32::MAX {
            self.consecutive_failures = self.consecutive_failures + 1;
        }
        let delay = backoff::rebuild_delay(self.consecutive_failures);
        self.retry_not_before = Some(now + delay * 1000);
        self.last_error = Some(error);
    }

    /// Settles a rebuild: a success clears the record, a failure is counted.
    pub fn rebuild_and_publish(&mut self, result: Result<u64, String>, now: u64)
        requires
            now <= u64::MAX - 60_000,
        ensures
            match result {
                Ok(_) => *final(self) == (RebuildBackoff {
                    consecutive_failures: 0,
                    retry_not_before: None,
                    last_error: None,
                }),
                Err(error) => {
                    &&& final(self).consecutive_failures == one_more(
                        old(self).consecutive_failures,
                    )
                    &&& final(self).retry_not_before == Some(
                        (now + 1000 * backoff::rebuild_seconds(
                            one_more(old(self).consecutive_failures),
                        )) as u64,
                    )
                    &&& final(self).last_error == Some(error)
                },
            },
    {
        match result {
            Ok(_) => {
                *self = RebuildBackoff::default();
            },
            Err(error) => {
                self.record_failure(error, now);
            },
        }
    }

    /// Whether a rebuild is started: none is while one is under way or put off.
    pub fn schedule_rebuild(&self, now: u64, in_flight: bool) -> (r: bool)
        ensures
            r == (!self.holds_at(now) && !in_flight),
    {
        !self.is_active(now) && !in_flight
    }

    /// The last error, as long as it holds rebuilds off.
    pub fn diagnostic(&self, now: u64) -> (r: Option<String>)
        ensures
            text::opt_view(r) == if self.holds_at(now) {
                text::opt_view(self.last_error)
            } else {
                None
            },
    {
        if self.is_active(now) {
            text::clone_opt(&self.last_error)
        } else {
            None
        }
    }
}

/// A stored vector belongs to a model.
pub open spec fn compatible(embedding: StoredEmbedding, model: ModelMetadata) -> bool {
    &&& embedding.model_id@ == model.model_id@
    &&& embedding.model_revision@ == model.model_revision@
    &&& embedding.dimensions == model.dimensions
    &&& embedding.normalized == model.normalized
    &&& embedding.values@.len() == model.dimensions
}

/// Whether a stored vector belongs to a model.
pub fn embedding_is_compatible(embedding: &StoredEmbedding, model: &ModelMetadata) -> (r: bool)
    ensures
        r == compatible(*embedding, *model),
{
    text::same(&embedding.model_id, &model.model_id) && text::same(
        &embedding.model_revision,
        &model.model_revision,
    ) && embedding.dimensions == model.dimensions && embedding.normalized == model.normalized
        && embedding.values.len() == model.dimensions
}

/// A skill and the vector that is stored for it, if any.
pub struct BackfillRow {
    pub artifact: SkillArtifact,
    pub embedding: Option<StoredEmbedding>,
}

/// A document that has to be embedded.
#[derive(Debug, Clone, PartialEq, Eq)]
pub struct MissingDocument {
    pub skill_id: String,
    pub document: String,
}

/// A skill needs a new vector.
pub open spec fn needs_vector(row: BackfillRow, model: ModelMetadata) -> bool {
    row.embedding is None || !compatible(row.embedding->0, model)
}

/// The ids and documents of the rows that need a new vector, in order.
pub open spec fn missing(rows: Seq<BackfillRow>, model: ModelMetadata) -> Seq<
    (Seq<char>, Seq<char>),
>
    decreases rows.len(),
{
    if rows.len() == 0 {
        Seq::empty()
    } else {
        let before = missing(rows.drop_last(), model);
        let row = rows.last();
        if needs_vector(row, model) {
            before.push((row.artifact.id@, embed::artifact_document(row.artifact).rendered()))
        } else {
            before
        }
    }
}

pub open spec fn missing_views(s: Seq<MissingDocument>) -> Seq<(Seq<char>, Seq<char>)> {
    s.map_values(|m: MissingDocument| (m.skill_id@, m.document@))
}

/// Lists what has to be embedded.
pub fn missing_documents(rows: &Vec<BackfillRow>, model: &ModelMetadata) -> (r: Vec<
    MissingDocument,
>)
    ensures
        missing_views(r@) == missing(rows@, *model),
{
    let mut out: Vec<MissingDocument> = Vec::new();
    let mut i: usize = 0;
    proof {
        assert(rows@.take(0).len() == 0);
        assert(missing_views(out@) =~= missing(rows@.take(0), *model));
    }
    while i < rows.len()
        invariant
            i <= rows@.len(),
            missing_views(out@) == missing(rows@.take(i as int), *model),
        decreases rows@.len() - i,
    {
        let ghost before = missing_views(out@);
        proof {
            assert(rows@.take(i + 1).drop_last() =~= rows@.take(i as int));
            assert(rows@.take(i + 1).last() == rows@[i as int]);
        }
        let needed = match &rows[i].embedding {
            None => true,
            Some(e) => !embedding_is_compatible(e, model),
        };
        if needed {
            let item = MissingDocument {
                skill_id: rows[i].artifact.id.clone(),
                document: embed::skill_document(&rows[i].artifact),
            };
            out.push(item);
            assert(missing_views(out@) =~= before.push((item.skill_id@, item.document@)));
        }
        i = i + 1;
    }
    assert(rows@.take(rows@.len() as int) =~= rows@);
    out
}

/// Where the batch that begins at a position ends.
pub fn batch_end(from: usize, total: usize) -> (r: usize)
    requires
        from <= total,
    ensures
        r == if total - from <= EMBEDDING_BATCH_SIZE {
            total as int
        } else {
            from + EMBEDDING_BATCH_SIZE
        },
        from < total ==> from < r,
{
    if total - from <= EMBEDDING_BATCH_SIZE {
        total
    } else {
        from + EMBEDDING_BATCH_SIZE
    }
}

/// Gives each document of a batch its vector; there must be one for each.
pub fn pair_batch(batch: &Vec<MissingDocument>, vectors: Vec<Vec<u32>>) -> (r: Result<
    Vec<(String, Vec<u32>)>,
    CoordinatorError,
>)
    ensures
        if vectors@.len() != batch@.len() {
            r is Err && r->Err_0@ == CoordinatorFault::Embedding(
                EmbeddingFault::InvalidConfiguration(
                    "embedding backend returned the wrong batch size"@,
                ),
            )
        } else {
            &&& r is Ok
            &&& r->Ok_0@.len() == batch@.len()
            &&& forall|i: int|
                0 <= i < batch@.len() ==> (#[trigger] r->Ok_0@[i]).0@ == batch@[i].skill_id@
                    && r->Ok_0@[i].1 == vectors@[i]
        },
{
    if vectors.len() != batch.len() {
        return Err(
            CoordinatorError::Embedding(
                EmbeddingError::InvalidConfiguration(
                    "embedding backend returned the wrong batch size".to_owned(),
                ),
            ),
        );
    }
    let ghost all = vectors@;
    let mut rest = vectors;
    let mut out: Vec<(String, Vec<u32>)> = Vec::new();
    let mut i: usize = 0;
    assert(all.skip(0) =~= all);
    while i < batch.len()
        invariant
            i <= batch@.len(),
            all.len() == batch@.len(),
            rest@ == all.skip(i as int),
            out@.len() == i,
            forall|j: int|
                0 <= j < i ==> (#[trigger] out@[j]).0@ == batch@[j].skill_id@ && out@[j].1
                    == all[j],
        decreases batch@.len() - i,
    {
        let vector = rest.remove(0);
        assert(vector == all[i as int]);
        out.push((batch[i].skill_id.clone(), vector));
        assert(rest@ =~= all.skip(i + 1));
        i = i + 1;
    }
    Ok(out)
}

/// What the store holds of a skill's vector and record, when it is read again.
#[derive(Debug, Clone, PartialEq, Eq)]
pub struct FreshRow {
    pub skill_id: String,
    pub embedding: Option<StoredEmbedding>,
    pub metadata: SkillRecordMetadata,
}

/// The position of the last row of a skill, below `n`.
pub open spec fn fresh_position(rows: Seq<FreshRow>, id: Seq<char>, n: nat) -> Option<int>
    decreases n,
{
    if n == 0 {
        None
    } else if rows[n - 1].skill_id@ == id {
        Some(n - 1)
    } else {
        fresh_position(rows, id, (n - 1) as nat)
    }
}

/// What is wrong with what was read again for skill `i`. What was read serves one
/// skill only.
pub open spec fn fresh_fault(
    initial: Seq<SkillArtifact>,
    rows: Seq<FreshRow>,
    model: ModelMetadata,
    i: int,
) -> Option<CoordinatorFault> {
    let id = initial[i].id@;
    let position = if exists|j: int| 0 <= j < i && (#[trigger] initial[j]).id@ == id {
        None
    } else {
        fresh_position(rows, id, rows.len())
    };
    match position {
        None => Some(
            CoordinatorFault::MalformedEmbedding {
                skill_id: id,
                reason: "active row disappeared during rebuild"@,
            },
        ),
        Some(k) => match rows[k].embedding {
            None => Some(
                CoordinatorFault::MalformedEmbedding {
                    skill_id: id,
                    reason: "compatible vector is missing after rebuild"@,
                },
            ),
            Some(e) => if !compatible(e, model) {
                Some(
                    CoordinatorFault::MalformedEmbedding {
                        skill_id: id,
                        reason: "embedding metadata is incompatible after rebuild"@,
                    },
                )
            } else {
                None
            },
        },
    }
}

/// The first fault of what was read again, from skill `i` on.
pub open spec fn refresh_fault_from(
    initial: Seq<SkillArtifact>,
    rows: Seq<FreshRow>,
    model: ModelMetadata,
    i: int,
) -> Option<CoordinatorFault>
    decreases initial.len() - i,
{
    if i < 0 || i >= initial.len() {
        None
    } else if fresh_fault(initial, rows, model, i) is Some {
        fresh_fault(initial, rows, model, i)
    } else {
        refresh_fault_from(initial, rows, model, i + 1)
    }
}

fn check_fresh(
    initial: &Vec<SkillArtifact>,
    rows: &Vec<FreshRow>,
    model: &ModelMetadata,
    i: usize,
) -> (r: Result<usize, CoordinatorError>)
    requires
        i < initial@.len(),
    ensures
        match r {
            Ok(k) => {
                &&& fresh_fault(initial@, rows@, *model, i as int) is None
                &&& k < rows@.len()
                &&& fresh_position(rows@, initial@[i as int].id@, rows@.len()) == Some(k as int)
            },
            Err(e) => fresh_fault(initial@, rows@, *model, i as int) == Some(e@),
        },
{
    let id = initial[i].id.as_str();
    let mut j: usize = 0;
    while j < i
        invariant
            j <= i,
            i < initial@.len(),
            id@ == initial@[i as int].id@,
            forall|m: int| 0 <= m < j ==> (#[trigger] initial@[m]).id@ != id@,
        decreases i - j,
    {
        if text::same(&initial[j].id, id) {
            assert(initial@[j as int].id@ == id@);
            return Err(
                CoordinatorError::MalformedEmbedding {
                    skill_id: id.to_owned(),
                    reason: "active row disappeared during rebuild",
                },
            );
        }
        j = j + 1;
    }
    let mut n: usize = rows.len();
    while n > 0 && !text::same(&rows[n - 1].skill_id, id)
        invariant
            n <= rows@.len(),
            fresh_position(rows@, id@, rows@.len()) == fresh_position(rows@, id@, n as nat),
        decreases n,
    {
        n = n - 1;
    }
    if n == 0 {
        return Err(
            CoordinatorError::MalformedEmbedding {
                skill_id: id.to_owned(),
                reason: "active row disappeared during rebuild",
            },
        );
    }
    match &rows[n - 1].embedding {
        None => Err(
            CoordinatorError::MalformedEmbedding {
                skill_id: id.to_owned(),
                reason: "compatible vector is missing after rebuild",
            },
        ),
        Some(e) => {
            if !embedding_is_compatible(e, model) {
                return Err(
                    CoordinatorError::MalformedEmbedding {
                        skill_id: id.to_owned(),
                        reason: "embedding metadata is incompatible after rebuild",
                    },
                );
            }
            Ok(n - 1)
        },
    }
}

/// Checks that every skill of a snapshot, read before its vectors were made, now has a
/// compatible vector, and says where.
pub fn refresh_snapshot_embeddings(
    initial: &Vec<SkillArtifact>,
    rows: &Vec<FreshRow>,
    model: &ModelMetadata,
) -> (r: Result<Vec<usize>, CoordinatorError>)
    ensures
        match r {
            Ok(positions) => {
                &&& refresh_fault_from(initial@, rows@, *model, 0) is None
                &&& positions@.len() == initial@.len()
                &&& forall|i: int|
                    0 <= i < initial@.len() ==> {
                        let k = #[trigger] positions@[i];
                        &&& k < rows@.len()
                        &&& fresh_position(rows@, initial@[i].id@, rows@.len()) == Some(k as int)
                    }
            },
            Err(e) => refresh_fault_from(initial@, rows@, *model, 0) == Some(e@),
        },
{
    let mut out: Vec<usize> = Vec::new();
    let mut i: usize = 0;
    while i < initial.len()
        invariant
            i <= initial@.len(),
            out@.len() == i,
            refresh_fault_from(initial@, rows@, *model, 0) == refresh_fault_from(
                initial@,
                rows@,
                *model,
                i as int,
            ),
            forall|j: int|
                0 <= j < i ==> {
                    let k = #[trigger] out@[j];
                    &&& k < rows@.len()
                    &&& fresh_position(rows@, initial@[j].id@, rows@.len()) == Some(k as int)
                },
        decreases initial@.len() - i,
    {
        match check_fresh(initial, rows, model, i) {
            Ok(k) => {
                out.push(k);
            },
            Err(e) => {
                return Err(e);
            },
        }
        i = i + 1;
    }
    Ok(out)
}

/// The report of a publication that a concurrent removal has overtaken.
pub open spec fn superseding(
    state: Option<GenerationState>,
    generation: u64,
    diagnostic: Option<Seq<char>>,
) -> Option<PublicationModel> {
    match state {
        Some(s) => if s.desired_generation > generation {
            Some(
                PublicationModel {
                    generation: s.desired_generation,
                    removal_only: true,
                    diagnostic,
                },
            )
        } else {
            None
        },
        None => None,
    }
}

/// Recovers the report where acknowledging a generation was refused: a concurrent
/// removal may have moved the desired generation on. `None` where it was not
/// overtaken, so that a genuine refusal still reaches the caller.
pub fn superseding_removal_report(
    state: &Option<GenerationState>,
    generation: u64,
    diagnostic: Option<String>,
) -> (r: Option<PublicationReport>)
    ensures
        match superseding(*state, generation, text::opt_view(diagnostic)) {
            None => r is None,
            Some(m) => r is Some && r->0@ == m,
        },
{
    match state {
        Some(s) => {
            if s.desired_generation > generation {
                Some(
                    PublicationReport {
                        generation: s.desired_generation,
                        removal_only: true,
                        diagnostic,
                    },
                )
            } else {
                None
            }
        },
        None => None,
    }
}

/// What is reported where a generation is no longer the desired one.
pub open spec fn outdated(generation: u64, desired: u64) -> CoordinatorFault {
    CoordinatorFault::Constraint(
        "lifecycle requested generation "@ + text::decimal(generation as nat)
            + ", durable generation is "@ + text::decimal(desired as nat),
    )
}

/// Checks that a generation is still the desired one.
pub fn ensure_generation_current(state: &GenerationState, generation: u64) -> (r: Result<
    (),
    CoordinatorError,
>)
    ensures
        if state.desired_generation == generation {
            r is Ok
        } else {
            r is Err && r->Err_0@ == outdated(generation, state.desired_generation)
        },
{
    if state.desired_generation == generation {
        return Ok(());
    }
    let wanted = text::render_u64(generation);
    let found = text::render_u64(state.desired_generation);
    let mut message = text::join3(
        "lifecycle requested generation ",
        &wanted,
        ", durable generation is ",
    );
    message.append(&found);
    Err(CoordinatorError::Constraint(message))
}

/// Where a coordinated lifecycle change stands. Each stage names what is asked for next.
/// The generation is the one that the change committed.
pub enum MutationStage {
    /// The change is made.
    Commit,
    /// What the change takes away is hidden from readers.
    Hide { generation: u64 },
    /// Durable state is asked to acknowledge the removals.
    MarkRemoval { generation: u64 },
    /// The complete generation is built.
    Build { generation: u64 },
    /// Durable state is asked to acknowledge the complete generation.
    MarkFull { generation: u64 },
    /// Durable state is told why only the removals are visible.
    MarkDegraded { generation: u64, diagnostic: String },
}

/// What a stage asks for.
pub enum MutationAction {
    Commit,
    /// Readers get the generation: what they had, without what the change takes away.
    Hide { generation: u64 },
    /// Durable state marks the generation as applied.
    Acknowledge { generation: u64, mode: &'static str, diagnostic: Option<String> },
    Build { generation: u64 },
}

/// The contents of a [`MutationAction`].
#[verifier::ext_equal]
pub enum ActionModel {
    Commit,
    Hide { generation: u64 },
    Acknowledge { generation: u64, mode: Seq<char>, diagnostic: Option<Seq<char>> },
    Build { generation: u64 },
}

impl View for MutationAction {
    type V = ActionModel;

    open spec fn view(&self) -> ActionModel {
        match *self {
            MutationAction::Commit => ActionModel::Commit,
            MutationAction::Hide { generation } => ActionModel::Hide { generation },
            MutationAction::Acknowledge { generation, mode, diagnostic } => {
                ActionModel::Acknowledge {
                    generation,
                    mode: mode@,
                    diagnostic: text::opt_view(diagnostic),
                }
            },
            MutationAction::Build { generation } => ActionModel::Build { generation },
        }
    }
}

impl MutationStage {
    /// The generation that the change committed, once it is made.
    pub open spec fn generation(self) -> Option<u64> {
        match self {
            MutationStage::Commit => None,
            MutationStage::Hide { generation } => Some(generation),
            MutationStage::MarkRemoval { generation } => Some(generation),
            MutationStage::Build { generation } => Some(generation),
            MutationStage::MarkFull { generation } => Some(generation),
            MutationStage::MarkDegraded { generation, .. } => Some(generation),
        }
    }

    /// What the stage asks for. Durable state is told that only removals are visible
    /// until a complete generation was built, and why, where a build failed.
    pub open spec fn action(self) -> ActionModel {
        match self {
            MutationStage::Commit => ActionModel::Commit,
            MutationStage::Hide { generation } => ActionModel::Hide { generation },
            MutationStage::MarkRemoval { generation } => ActionModel::Acknowledge {
                generation,
                mode: "removal_only"@,
                diagnostic: None,
            },
            MutationStage::Build { generation } => ActionModel::Build { generation },
            MutationStage::MarkFull { generation } => ActionModel::Acknowledge {
                generation,
                mode: "full"@,
                diagnostic: None,
            },
            MutationStage::MarkDegraded { generation, diagnostic } => ActionModel::Acknowledge {
                generation,
                mode: "removal_only"@,
                diagnostic: Some(diagnostic@),
            },
        }
    }

    /// What the stage asks for.
    pub fn request(&self) -> (r: MutationAction)
        ensures
            r@ == self.action(),
    {
        match self {
            MutationStage::Commit => MutationAction::Commit,
            MutationStage::Hide { generation } => MutationAction::Hide { generation: *generation },
            MutationStage::MarkRemoval { generation } => MutationAction::Acknowledge {
                generation: *generation,
                mode: "removal_only",
                diagnostic: None,
            },
            MutationStage::Build { generation } => {
                MutationAction::Build { generation: *generation }
            },
            MutationStage::MarkFull { generation } => MutationAction::Acknowledge {
                generation: *generation,
                mode: "full",
                diagnostic: None,
            },
            MutationStage::MarkDegraded { generation, diagnostic } => MutationAction::Acknowledge {
                generation: *generation,
                mode: "removal_only",
                diagnostic: Some(diagnostic.clone()),
            },
        }
    }
}

/// What was answered to a stage.
pub enum MutationEvent<E> {
    /// A lock that the stage needs is poisoned.
    Poisoned,
    /// The change, with the generation that it committed.
    Committed(Result<u64, E>),
    /// Readers no longer see what the change takes away.
    Hidden,
    /// An acknowledgement, and the durable state that was read where it was refused.
    Marked { answer: Result<(), StoreFailure>, state: Option<GenerationState> },
    /// A build, with its error as text.
    Built(Result<(), String>),
}

/// Why a coordinated change failed: it was not made, or it was made and not published.
#[derive(Debug)]
pub enum CoordinatedMutationError<E> {
    Mutation(E),
    Publication(CoordinatorError),
}

/// The contents of a [`CoordinatedMutationError`].
pub enum CoordinatedFault<E> {
    Mutation(E),
    Publication(CoordinatorFault),
}

impl<E> View for CoordinatedMutationError<E> {
    type V = CoordinatedFault<E>;

    open spec fn view(&self) -> CoordinatedFault<E> {
        match *self {
            CoordinatedMutationError::Mutation(e) => CoordinatedFault::Mutation(e),
            CoordinatedMutationError::Publication(e) => CoordinatedFault::Publication(e@),
        }
    }
}

/// What comes of an answer. Where `publish` is set, the built generation is put before
/// readers.
pub enum MutationStep<E> {
    Next(MutationStage),
    Report { report: PublicationReport, publish: bool },
    Failed(CoordinatedMutationError<E>),
}

/// The contents of a [`MutationStep`].
pub enum MutationModel<E> {
    Next(MutationStage),
    Report { report: PublicationModel, publish: bool },
    Failed(CoordinatedFault<E>),
}

impl<E> View for MutationStep<E> {
    type V = MutationModel<E>;

    open spec fn view(&self) -> MutationModel<E> {
        match *self {
            MutationStep::Next(stage) => MutationModel::Next(stage),
            MutationStep::Report { report, publish } => {
                MutationModel::Report { report: report@, publish }
            },
            MutationStep::Failed(e) => MutationModel::Failed(e@),
        }
    }
}

/// What a refused acknowledgement leads to.
pub open spec fn refused<E>(
    generation: u64,
    error: StoreFailure,
    state: Option<GenerationState>,
    diagnostic: Option<Seq<char>>,
) -> MutationModel<E> {
    match superseding(state, generation, diagnostic) {
        Some(report) => MutationModel::Report { report, publish: false },
        None => MutationModel::Failed(
            CoordinatedFault::Publication(CoordinatorFault::Store(error)),
        ),
    }
}

/// What an answer leads to.
pub open spec fn mutation_step<E>(stage: MutationStage, event: MutationEvent<E>) -> MutationModel<
    E,
> {
    match (stage, event) {
        (_, MutationEvent::Poisoned) => MutationModel::Failed(
            CoordinatedFault::Publication(CoordinatorFault::Poisoned),
        ),
        (MutationStage::Commit, MutationEvent::Committed(made)) => match made {
            Ok(generation) => MutationModel::Next(MutationStage::Hide { generation }),
            Err(e) => MutationModel::Failed(CoordinatedFault::Mutation(e)),
        },
        (MutationStage::Hide { generation }, MutationEvent::Hidden) => MutationModel::Next(
            MutationStage::MarkRemoval { generation },
        ),
        (MutationStage::MarkRemoval { generation }, MutationEvent::Marked { answer, state }) => {
            match answer {
                Ok(()) => MutationModel::Next(MutationStage::Build { generation }),
                Err(e) => refused(generation, e, state, None),
            }
        },
        (MutationStage::Build { generation }, MutationEvent::Built(built)) => match built {
            Ok(()) => MutationModel::Next(MutationStage::MarkFull { generation }),
            Err(diagnostic) => MutationModel::Next(
                MutationStage::MarkDegraded { generation, diagnostic },
            ),
        },
        (MutationStage::MarkFull { generation }, MutationEvent::Marked { answer, state }) => {
            match answer {
                Ok(()) => MutationModel::Report {
                    report: PublicationModel { generation, removal_only: false, diagnostic: None },
                    publish: true,
                },
                Err(e) => refused(generation, e, state, None),
            }
        },
        (
            MutationStage::MarkDegraded { generation, diagnostic },
            MutationEvent::Marked { answer, state },
        ) => match answer {
            Ok(()) => MutationModel::Report {
                report: PublicationModel {
                    generation,
                    removal_only: true,
                    diagnostic: Some(diagnostic@),
                },
                publish: false,
            },
            Err(e) => refused(generation, e, state, Some(diagnostic@)),
        },
        (stage, _) => MutationModel::Next(stage),
    }
}

fn settle_refusal<E>(
    generation: u64,
    error: StoreFailure,
    state: Option<GenerationState>,
    diagnostic: Option<String>,
) -> (r: MutationStep<E>)
    ensures
        r@ == refused::<E>(generation, error, state, text::opt_view(diagnostic)),
{
    match superseding_removal_report(&state, generation, diagnostic) {
        Some(report) => MutationStep::Report { report, publish: false },
        None => MutationStep::Failed(
            CoordinatedMutationError::Publication(CoordinatorError::Store(error)),
        ),
    }
}

/// Takes a coordinated lifecycle change one answer further: it is made, what it takes
/// away is hidden from readers, and a complete generation is built and acknowledged. An
/// answer to another stage is passed over.
pub fn coordinate_mutation<E>(stage: MutationStage, event: MutationEvent<E>) -> (r: MutationStep<
    E,
>)
    ensures
        r@ == mutation_step(stage, event),
{
    match (stage, event) {
        (_, MutationEvent::Poisoned) => MutationStep::Failed(
            CoordinatedMutationError::Publication(CoordinatorError::Poisoned),
        ),
        (MutationStage::Commit, MutationEvent::Committed(made)) => match made {
            Ok(generation) => MutationStep::Next(MutationStage::Hide { generation }),
            Err(e) => MutationStep::Failed(CoordinatedMutationError::Mutation(e)),
        },
        (MutationStage::Hide { generation }, MutationEvent::Hidden) => MutationStep::Next(
            MutationStage::MarkRemoval { generation },
        ),
        (MutationStage::MarkRemoval { generation }, MutationEvent::Marked { answer, state }) => {
            match answer {
                Ok(()) => MutationStep::Next(MutationStage::Build { generation }),
                Err(e) => settle_refusal(generation, e, state, None),
            }
        },
        (MutationStage::Build { generation }, MutationEvent::Built(built)) => match built {
            Ok(()) => MutationStep::Next(MutationStage::MarkFull { generation }),
            Err(diagnostic) => MutationStep::Next(
                MutationStage::MarkDegraded { generation, diagnostic },
            ),
        },
        (MutationStage::MarkFull { generation }, MutationEvent::Marked { answer, state }) => {
            match answer {
                Ok(()) => MutationStep::Report {
                    report: PublicationReport { generation, removal_only: false, diagnostic: None },
                    publish: true,
                },
                Err(e) => settle_refusal(generation, e, state, None),
            }
        },
        (
            MutationStage::MarkDegraded { generation, diagnostic },
            MutationEvent::Marked { answer, state },
        ) => match answer {
            Ok(()) => MutationStep::Report {
                report: PublicationReport {
                    generation,
                    removal_only: true,
                    diagnostic: Some(diagnostic),
                },
                publish: false,
            },
            Err(e) => settle_refusal(generation, e, state, Some(diagnostic)),
        },
        (stage, _) => MutationStep::Next(stage),
    }
}

/// What an answer to a removal leads to: it is made, hidden and acknowledged, and nothing
/// is built.
pub open spec fn removal_step<E>(stage: MutationStage, event: MutationEvent<E>) -> MutationModel<
    E,
> {
    match (stage, event) {
        (MutationStage::MarkRemoval { generation }, MutationEvent::Marked { answer, .. }) => {
            match answer {
                Ok(()) => MutationModel::Report {
                    report: PublicationModel { generation, removal_only: true, diagnostic: None },
                    publish: false,
                },
                Err(e) => MutationModel::Failed(
                    CoordinatedFault::Publication(CoordinatorFault::Store(e)),
                ),
            }
        },
        (stage, event) => mutation_step(stage, event),
    }
}

/// Takes a removal that is published without a build one answer further. An answer to
/// another stage is passed over.
pub fn coordinate_removal<E>(stage: MutationStage, event: MutationEvent<E>) -> (r: MutationStep<E>)
    ensures
        r@ == removal_step(stage, event),
{
    match (stage, event) {
        (MutationStage::MarkRemoval { generation }, MutationEvent::Marked { answer, .. }) => {
            match answer {
                Ok(()) => MutationStep::Report {
                    report: PublicationReport { generation, removal_only: true, diagnostic: None },
                    publish: false,
                },
                Err(e) => MutationStep::Failed(
                    CoordinatedMutationError::Publication(CoordinatorError::Store(e)),
                ),
            }
        },
        (stage, event) => coordinate_mutation(stage, event),
    }
}

/// Where a change that hides skills stands. Each stage names what is asked for next.
#[derive(Debug, Clone, Copy, PartialEq, Eq, Structural)]
pub enum HiddenStage {
    /// What readers see is taken hold of, so that nothing can fail there later.
    Prepare,
    /// A new generation is requested.
    Request,
    /// The change is made.
    Mutate { generation: u64 },
    /// Durable state is asked to acknowledge the generation.
    Acknowledge { generation: u64 },
}

/// What was answered to a stage of a change that hides skills.
pub enum HiddenEvent {
    /// What readers see cannot be taken hold of: its lock is poisoned.
    Poisoned,
    Prepared,
    Requested(Result<u64, StoreFailure>),
    Mutated(Result<(), StoreFailure>),
    Acknowledged(Result<(), StoreFailure>),
}

/// What comes of an answer. Where `publish` names a generation, readers get that
/// generation without the hidden skills.
pub enum HiddenStep {
    Next(HiddenStage),
    Done { publish: Option<u64>, result: Result<u64, CoordinatorError> },
}

/// What an answer leads to. Once the change is made the skills are hidden from readers,
/// whether or not the generation is acknowledged.
pub open spec fn hidden_step(stage: HiddenStage, event: HiddenEvent) -> HiddenStep {
    match (stage, event) {
        (HiddenStage::Prepare, HiddenEvent::Poisoned) => HiddenStep::Done {
            publish: None,
            result: Err(CoordinatorError::Poisoned),
        },
        (HiddenStage::Prepare, HiddenEvent::Prepared) => HiddenStep::Next(HiddenStage::Request),
        (HiddenStage::Request, HiddenEvent::Requested(answer)) => match answer {
            Ok(generation) => HiddenStep::Next(HiddenStage::Mutate { generation }),
            Err(e) => HiddenStep::Done { publish: None, result: Err(CoordinatorError::Store(e)) },
        },
        (HiddenStage::Mutate { generation }, HiddenEvent::Mutated(answer)) => match answer {
            Ok(()) => HiddenStep::Next(HiddenStage::Acknowledge { generation }),
            Err(e) => HiddenStep::Done { publish: None, result: Err(CoordinatorError::Store(e)) },
        },
        (HiddenStage::Acknowledge { generation }, HiddenEvent::Acknowledged(answer)) => {
            HiddenStep::Done {
                publish: Some(generation),
                result: match answer {
                    Ok(()) => Ok(generation),
                    Err(e) => Err(CoordinatorError::Store(e)),
                },
            }
        },
        (stage, _) => HiddenStep::Next(stage),
    }
}

/// Takes a change that hides skills one answer further. An answer to another stage is
/// passed over.
pub fn mutate_and_publish_hidden(stage: HiddenStage, event: HiddenEvent) -> (r: HiddenStep)
    ensures
        r == hidden_step(stage, event),
{
    match (stage, event) {
        (HiddenStage::Prepare, HiddenEvent::Poisoned) => HiddenStep::Done {
            publish: None,
            result: Err(CoordinatorError::Poisoned),
        },
        (HiddenStage::Prepare, HiddenEvent::Prepared) => HiddenStep::Next(HiddenStage::Request),
        (HiddenStage::Request, HiddenEvent::Requested(answer)) => match answer {
            Ok(generation) => HiddenStep::Next(HiddenStage::Mutate { generation }),
            Err(e) => HiddenStep::Done { publish: None, result: Err(CoordinatorError::Store(e)) },
        },
        (HiddenStage::Mutate { generation }, HiddenEvent::Mutated(answer)) => match answer {
            Ok(()) => HiddenStep::Next(HiddenStage::Acknowledge { generation }),
            Err(e) => HiddenStep::Done { publish: None, result: Err(CoordinatorError::Store(e)) },
        },
        (HiddenStage::Acknowledge { generation }, HiddenEvent::Acknowledged(answer)) => {
            HiddenStep::Done {
                publish: Some(generation),
                result: match answer {
                    Ok(()) => Ok(generation),
                    Err(e) => Err(CoordinatorError::Store(e)),
                },
            }
        },
        (stage, _) => HiddenStep::Next(stage),
    }
}

/// Where a change that hides skills stands after a history of answers. What has ended
/// stays so.
pub open spec fn hidden_run(events: Seq<HiddenEvent>) -> HiddenStep
    decreases events.len(),
{
    if events.len() == 0 {
        HiddenStep::Next(HiddenStage::Prepare)
    } else {
        match hidden_run(events.drop_last()) {
            HiddenStep::Next(stage) => hidden_step(stage, events.last()),
            ended => ended,
        }
    }
}

/// The change is not begun before what readers see was taken hold of. Readers lose the
/// skills only where the change was made, in the generation that was requested; and a
/// generation is reported only where it was acknowledged.
pub proof fn law_hidden_skills_follow_the_change(events: Seq<HiddenEvent>)
    ensures
        match hidden_run(events) {
            HiddenStep::Next(stage) => {
                &&& !(stage is Prepare) ==> events.contains(HiddenEvent::Prepared)
                &&& (stage matches HiddenStage::Mutate { generation } ==> events.contains(
                    HiddenEvent::Requested(Ok(generation)),
                ))
                &&& (stage matches HiddenStage::Acknowledge { generation } ==> events.contains(
                    HiddenEvent::Requested(Ok(generation)),
                ) && events.contains(HiddenEvent::Mutated(Ok(()))))
            },
            HiddenStep::Done { publish, result } => {
                &&& (publish matches Some(generation) ==> events.contains(
                    HiddenEvent::Requested(Ok(generation)),
                ) && events.contains(HiddenEvent::Mutated(Ok(()))))
                &&& (result matches Ok(generation) ==> publish == Some(generation)
                    && events.contains(HiddenEvent::Acknowledged(Ok(()))))
            },
        },
    decreases events.len(),
{
    if events.len() > 0 {
        let init = events.drop_last();
        law_hidden_skills_follow_the_change(init);
        assert forall|e: HiddenEvent| init.contains(e) implies #[trigger] events.contains(e) by {
            let i = choose|i: int| 0 <= i < init.len() && init[i] == e;
            assert(events[i] == e);
        }
        assert(events[events.len() - 1] == events.last());
        assert(events.contains(events.last()));
        match (hidden_run(init), events.last()) {
            (HiddenStep::Next(HiddenStage::Mutate { .. }), HiddenEvent::Mutated(Ok(u))) => {
                assert(u == ());
            },
            (HiddenStep::Next(HiddenStage::Acknowledge { .. }), HiddenEvent::Acknowledged(Ok(u)))
            => {
                assert(u == ());
            },
            _ => {},
        }
    }
}

/// Once the change is made nothing keeps the skills in readers' sight: whatever is
/// answered from then on, the run either still waits for the acknowledgement or has
/// published the generation without them.
pub proof fn law_a_made_change_is_hidden(
    events: Seq<HiddenEvent>,
    later: Seq<HiddenEvent>,
    generation: u64,
)
    requires
        hidden_run(events) == HiddenStep::Next(HiddenStage::Acknowledge { generation }),
    ensures
        match hidden_run(events + later) {
            HiddenStep::Next(stage) => stage == (HiddenStage::Acknowledge { generation }),
            HiddenStep::Done { publish, .. } => publish == Some(generation),
        },
    decreases later.len(),
{
    let all = events + later;
    if later.len() == 0 {
        assert(all =~= events);
    } else {
        law_a_made_change_is_hidden(events, later.drop_last(), generation);
        assert(all.drop_last() =~= events + later.drop_last());
    }
}

/// Where a coordinated change stands after a history of answers. What has ended stays so.
pub open spec fn mutation_run<E>(events: Seq<MutationEvent<E>>) -> MutationModel<E>
    decreases events.len(),
{
    if events.len() == 0 {
        MutationModel::Next(MutationStage::Commit)
    } else {
        match mutation_run(events.drop_last()) {
            MutationModel::Next(stage) => mutation_step(stage, events.last()),
            ended => ended,
        }
    }
}

/// A change that was not made publishes nothing: neither is anything hidden or
/// acknowledged, nor is anything built, whatever follows.
pub proof fn law_refused_changes_publish_nothing<E>(error: E, more: Seq<MutationEvent<E>>)
    ensures
        mutation_run(seq![MutationEvent::Committed(Err::<u64, E>(error))] + more)
            == MutationModel::<E>::Failed(CoordinatedFault::Mutation(error)),
    decreases more.len(),
{
    let first = seq![MutationEvent::Committed(Err::<u64, E>(error))];
    let events = first + more;
    if more.len() == 0 {
        assert(events =~= first);
        assert(first.drop_last() =~= Seq::empty());
        assert(mutation_run(Seq::<MutationEvent<E>>::empty()) == MutationModel::<E>::Next(
            MutationStage::Commit,
        ));
    } else {
        law_refused_changes_publish_nothing(error, more.drop_last());
        assert(events.drop_last() =~= first + more.drop_last());
    }
}

/// Every stage after the change works on the generation that the change committed, and a
/// report names that generation or, where it was overtaken, a newer one. The removals
/// were hidden before durable state was asked for anything.
pub proof fn law_stages_keep_the_committed_generation<E>(events: Seq<MutationEvent<E>>)
    ensures
        match mutation_run(events) {
            MutationModel::Next(stage) => stage.generation() matches Some(generation) ==> {
                &&& events.contains(MutationEvent::Committed(Ok(generation)))
                &&& stage is Hide || events.contains(MutationEvent::Hidden)
            },
            MutationModel::Report { report, publish } => {
                &&& events.contains(MutationEvent::Hidden)
                &&& exists|generation: u64|
                    report.generation >= generation && (publish ==> report.generation == generation)
                        && #[trigger] events.contains(MutationEvent::Committed(Ok(generation)))
            },
            MutationModel::Failed(_) => true,
        },
    decreases events.len(),
{
    if events.len() > 0 {
        let init = events.drop_last();
        law_stages_keep_the_committed_generation(init);
        assert forall|e: MutationEvent<E>| init.contains(e) implies #[trigger] events.contains(e) by {
            let i = choose|i: int| 0 <= i < init.len() && init[i] == e;
            assert(events[i] == e);
        }
        assert(events[events.len() - 1] == events.last());
        assert(events.contains(events.last()));
        match mutation_run(init) {
            MutationModel::Next(stage) => {
                if let Some(generation) = stage.generation() {
                    assert(events.contains(MutationEvent::Committed(Ok(generation))));
                }
            },
            MutationModel::Report { report, publish } => {
                let generation = choose|generation: u64|
                    report.generation >= generation && (publish ==> report.generation == generation)
                        && #[trigger] init.contains(MutationEvent::Committed(Ok(generation)));
                assert(events.contains(MutationEvent::Committed(Ok(generation))));
            },
            MutationModel::Failed(_) => {},
        }
    }
}

/// A built generation is put before readers only when durable state has acknowledged
/// it as complete, and then it is reported as complete. A report never names an older
/// generation than the one the change committed.
pub proof fn law_publication_follows_acknowledgement<E>(
    stage: MutationStage,
    event: MutationEvent<E>,
)
    ensures
        mutation_step(stage, event) matches MutationModel::Report { report, publish } ==> {
            &&& stage.generation() matches Some(generation) && report.generation >= generation
            &&& publish == !report.removal_only
            &&& publish ==> stage.generation() == Some(report.generation) && stage.action() == (
            ActionModel::Acknowledge {
                generation: report.generation,
                mode: "full"@,
                diagnostic: None,
            }) && (event matches MutationEvent::Marked { answer: Ok(()), .. })
        },
{
}

/// Where a rebuild stands.
#[derive(Debug, Clone, Copy, PartialEq, Eq)]
pub enum RebuildStage {
    /// Durable state is read to see whether there is anything to do.
    Check,
    /// Durable state is read again to see what.
    Plan,
    /// A new generation is requested.
    Request,
    /// The rows of the generation are read.
    Snapshot { generation: u64, acknowledge: bool },
    /// Batches of documents are embedded and stored.
    Embed { generation: u64, acknowledge: bool, batches: usize },
    /// The rows are read again, with their vectors.
    Refresh { generation: u64, acknowledge: bool },
    /// The index is built.
    Build { generation: u64, acknowledge: bool },
    /// Durable state is asked to acknowledge the generation.
    Acknowledge { generation: u64 },
    /// Durable state is read to see that the generation is still desired.
    Recheck { generation: u64 },
    /// The index is put before readers.
    Publish { generation: u64 },
    /// A graph is built for it.
    Graph { generation: u64 },
}

/// What was answered to a stage of a rebuild.
pub enum RebuildEvent {
    /// Durable state, and whether readers have had a generation.
    State { state: Result<GenerationState, StoreFailure>, hydrated: bool },
    Requested(Result<u64, StoreFailure>),
    /// How many documents have to be embedded.
    Snapshot(Result<usize, StoreFailure>),
    /// One batch was embedded and stored.
    Batch(Result<(), CoordinatorError>),
    /// The rows were read again and checked, and durable state was read.
    Refreshed { rows: Result<(), CoordinatorError>, state: Result<GenerationState, StoreFailure> },
    Built(Result<(), String>),
    Acknowledged(Result<(), StoreFailure>),
    /// The index is before readers; whether it is large enough for a graph.
    Published { large: bool },
    /// The graph was built; durable state, and the generation before readers.
    Graph { state: Result<GenerationState, StoreFailure>, published: u64 },
}

/// What comes of an answer. Where `with_graph` is set, the index with its graph takes
/// the place of the one before readers.
pub enum RebuildStep {
    Next(RebuildStage),
    Done { generation: u64, with_graph: bool },
    Failed(CoordinatorError),
}

/// The contents of a [`RebuildStep`].
#[verifier::ext_equal]
pub enum RebuildModel {
    Next(RebuildStage),
    Done { generation: u64, with_graph: bool },
    Failed(CoordinatorFault),
}

impl View for RebuildStep {
    type V = RebuildModel;

    open spec fn view(&self) -> RebuildModel {
        match *self {
            RebuildStep::Next(stage) => RebuildModel::Next(stage),
            RebuildStep::Done { generation, with_graph } => {
                RebuildModel::Done { generation, with_graph }
            },
            RebuildStep::Failed(e) => RebuildModel::Failed(e@),
        }
    }
}

/// How many batches documents make.
pub open spec fn batch_count(documents: usize) -> usize {
    if documents == 0 {
        0
    } else {
        ((documents - 1) / EMBEDDING_BATCH_SIZE as int + 1) as usize
    }
}

/// What is rebuilt, from durable state: a generation that is desired and not applied,
/// the applied one where readers have not had it yet, or else a new one.
pub open spec fn planned_stage(state: GenerationState, hydrated: bool) -> RebuildStage {
    if state.desired_generation > state.applied_generation {
        RebuildStage::Snapshot { generation: state.desired_generation, acknowledge: true }
    } else if !hydrated && state.applied_generation > 0 && state.complete() {
        RebuildStage::Snapshot { generation: state.applied_generation, acknowledge: false }
    } else {
        RebuildStage::Request
    }
}

/// The stage that follows the rows and the batches.
pub open spec fn embed_stage(generation: u64, acknowledge: bool, batches: usize) -> RebuildStage {
    if batches == 0 {
        RebuildStage::Refresh { generation, acknowledge }
    } else {
        RebuildStage::Embed { generation, acknowledge, batches }
    }
}

/// What an answer leads to.
pub open spec fn rebuild_step(stage: RebuildStage, event: RebuildEvent) -> RebuildModel {
    match (stage, event) {
        (RebuildStage::Check, RebuildEvent::State { state, hydrated }) => match state {
            Err(e) => RebuildModel::Failed(CoordinatorFault::Store(e)),
            Ok(s) => if hydrated && s.complete() {
                RebuildModel::Done { generation: s.applied_generation, with_graph: false }
            } else {
                RebuildModel::Next(RebuildStage::Plan)
            },
        },
        (RebuildStage::Plan, RebuildEvent::State { state, hydrated }) => match state {
            Err(e) => RebuildModel::Failed(CoordinatorFault::Store(e)),
            Ok(s) => RebuildModel::Next(planned_stage(s, hydrated)),
        },
        (RebuildStage::Request, RebuildEvent::Requested(answer)) => match answer {
            Err(e) => RebuildModel::Failed(CoordinatorFault::Store(e)),
            Ok(generation) => RebuildModel::Next(
                RebuildStage::Snapshot { generation, acknowledge: true },
            ),
        },
        (RebuildStage::Snapshot { generation, acknowledge }, RebuildEvent::Snapshot(answer)) => {
            match answer {
                Err(e) => RebuildModel::Failed(CoordinatorFault::Store(e)),
                Ok(documents) => RebuildModel::Next(
                    embed_stage(generation, acknowledge, batch_count(documents)),
                ),
            }
        },
        (RebuildStage::Embed { generation, acknowledge, batches }, RebuildEvent::Batch(answer)) => {
            match answer {
                Err(e) => RebuildModel::Failed(e@),
                Ok(()) => RebuildModel::Next(
                    embed_stage(
                        generation,
                        acknowledge,
                        if batches == 0 {
                            0
                        } else {
                            (batches - 1) as usize
                        },
                    ),
                ),
            }
        },
        (
            RebuildStage::Refresh { generation, acknowledge },
            RebuildEvent::Refreshed { rows, state },
        ) => match rows {
            Err(e) => RebuildModel::Failed(e@),
            Ok(()) => match state {
                Err(e) => RebuildModel::Failed(CoordinatorFault::Store(e)),
                Ok(s) => if s.desired_generation != generation {
                    RebuildModel::Failed(outdated(generation, s.desired_generation))
                } else {
                    RebuildModel::Next(RebuildStage::Build { generation, acknowledge })
                },
            },
        },
        (RebuildStage::Build { generation, acknowledge }, RebuildEvent::Built(built)) => {
            match built {
                Err(e) => RebuildModel::Failed(CoordinatorFault::Index(e@)),
                Ok(()) => if acknowledge {
                    RebuildModel::Next(RebuildStage::Acknowledge { generation })
                } else {
                    RebuildModel::Next(RebuildStage::Recheck { generation })
                },
            }
        },
        (RebuildStage::Acknowledge { generation }, RebuildEvent::Acknowledged(answer)) => {
            match answer {
                Err(e) => RebuildModel::Failed(CoordinatorFault::Store(e)),
                Ok(()) => RebuildModel::Next(RebuildStage::Publish { generation }),
            }
        },
        (RebuildStage::Recheck { generation }, RebuildEvent::State { state, .. }) => match state {
            Err(e) => RebuildModel::Failed(CoordinatorFault::Store(e)),
            Ok(s) => if s.desired_generation != generation {
                RebuildModel::Failed(outdated(generation, s.desired_generation))
            } else {
                RebuildModel::Next(RebuildStage::Publish { generation })
            },
        },
        (RebuildStage::Publish { generation }, RebuildEvent::Published { large }) => if large {
            RebuildModel::Next(RebuildStage::Graph { generation })
        } else {
            RebuildModel::Done { generation, with_graph: false }
        },
        (RebuildStage::Graph { generation }, RebuildEvent::Graph { state, published }) => {
            match state {
                Err(e) => RebuildModel::Failed(CoordinatorFault::Store(e)),
                Ok(s) => RebuildModel::Done {
                    generation,
                    with_graph: s.applied_generation == generation && s.desired_generation
                        == generation && published == generation,
                },
            }
        },
        (stage, _) => RebuildModel::Next(stage),
    }
}

fn embedding_stage(generation: u64, acknowledge: bool, batches: usize) -> (r: RebuildStage)
    ensures
        r == embed_stage(generation, acknowledge, batches),
{
    if batches == 0 {
        RebuildStage::Refresh { generation, acknowledge }
    } else {
        RebuildStage::Embed { generation, acknowledge, batches }
    }
}

fn plan_stage(state: &GenerationState, hydrated: bool) -> (r: RebuildStage)
    ensures
        r == planned_stage(*state, hydrated),
{
    if state.desired_generation > state.applied_generation {
        RebuildStage::Snapshot { generation: state.desired_generation, acknowledge: true }
    } else if !hydrated && state.applied_generation > 0 && state.is_complete() {
        RebuildStage::Snapshot { generation: state.applied_generation, acknowledge: false }
    } else {
        RebuildStage::Request
    }
}

/// Takes a rebuild one answer further, from durable state to a published generation.
/// An answer to another stage is passed over.
pub fn rebuild_and_publish_inner(stage: RebuildStage, event: RebuildEvent) -> (r: RebuildStep)
    ensures
        r@ == rebuild_step(stage, event),
{
    match (stage, event) {
        (RebuildStage::Check, RebuildEvent::State { state, hydrated }) => match state {
            Err(e) => RebuildStep::Failed(CoordinatorError::Store(e)),
            Ok(s) => {
                if hydrated && s.is_complete() {
                    RebuildStep::Done { generation: s.applied_generation, with_graph: false }
                } else {
                    RebuildStep::Next(RebuildStage::Plan)
                }
            },
        },
        (RebuildStage::Plan, RebuildEvent::State { state, hydrated }) => match state {
            Err(e) => RebuildStep::Failed(CoordinatorError::Store(e)),
            Ok(s) => RebuildStep::Next(plan_stage(&s, hydrated)),
        },
        (RebuildStage::Request, RebuildEvent::Requested(answer)) => match answer {
            Err(e) => RebuildStep::Failed(CoordinatorError::Store(e)),
            Ok(generation) => RebuildStep::Next(
                RebuildStage::Snapshot { generation, acknowledge: true },
            ),
        },
        (RebuildStage::Snapshot { generation, acknowledge }, RebuildEvent::Snapshot(answer)) => {
            match answer {
                Err(e) => RebuildStep::Failed(CoordinatorError::Store(e)),
                Ok(documents) => {
                    let batches: usize = if documents == 0 {
                        0
                    } else {
                        (documents - 1) / EMBEDDING_BATCH_SIZE + 1
                    };
                    RebuildStep::Next(embedding_stage(generation, acknowledge, batches))
                },
            }
        },
        (RebuildStage::Embed { generation, acknowledge, batches }, RebuildEvent::Batch(answer)) => {
            match answer {
                Err(e) => RebuildStep::Failed(e),
                Ok(()) => {
                    let left: usize = if batches == 0 {
                        0
                    } else {
                        batches - 1
                    };
                    RebuildStep::Next(embedding_stage(generation, acknowledge, left))
                },
            }
        },
        (
            RebuildStage::Refresh { generation, acknowledge },
            RebuildEvent::Refreshed { rows, state },
        ) => match rows {
            Err(e) => RebuildStep::Failed(e),
            Ok(()) => match state {
                Err(e) => RebuildStep::Failed(CoordinatorError::Store(e)),
                Ok(s) => match ensure_generation_current(&s, generation) {
                    Err(e) => RebuildStep::Failed(e),
                    Ok(()) => RebuildStep::Next(RebuildStage::Build { generation, acknowledge }),
                },
            },
        },
        (RebuildStage::Build { generation, acknowledge }, RebuildEvent::Built(built)) => {
            match built {
                Err(e) => RebuildStep::Failed(CoordinatorError::Index(e)),
                Ok(()) => {
                    if acknowledge {
                        RebuildStep::Next(RebuildStage::Acknowledge { generation })
                    } else {
                        RebuildStep::Next(RebuildStage::Recheck { generation })
                    }
                },
            }
        },
        (RebuildStage::Acknowledge { generation }, RebuildEvent::Acknowledged(answer)) => {
            match answer {
                Err(e) => RebuildStep::Failed(CoordinatorError::Store(e)),
                Ok(()) => RebuildStep::Next(RebuildStage::Publish { generation }),
            }
        },
        (RebuildStage::Recheck { generation }, RebuildEvent::State { state, .. }) => match state {
            Err(e) => RebuildStep::Failed(CoordinatorError::Store(e)),
            Ok(s) => match ensure_generation_current(&s, generation) {
                Err(e) => RebuildStep::Failed(e),
                Ok(()) => RebuildStep::Next(RebuildStage::Publish { generation }),
            },
        },
        (RebuildStage::Publish { generation }, RebuildEvent::Published { large }) => {
            if large {
                RebuildStep::Next(RebuildStage::Graph { generation })
            } else {
                RebuildStep::Done { generation, with_graph: false }
            }
        },
        (RebuildStage::Graph { generation }, RebuildEvent::Graph { state, published }) => {
            match state {
                Err(e) => RebuildStep::Failed(CoordinatorError::Store(e)),
                Ok(s) => RebuildStep::Done {
                    generation,
                    with_graph: s.is_current(generation) && published == generation,
                },
            }
        },
        (stage, _) => RebuildStep::Next(stage),
    }
}

/// Where the build of a generation stands.
#[derive(Debug, Clone, Copy, PartialEq, Eq)]
pub enum BuildStage {
    /// Durable state is read to see that the generation is desired.
    Check,
    /// The rows of the generation are read.
    Snapshot,
    /// Batches of documents are embedded and stored.
    Embed { batches: usize },
    /// The rows are read again, with their vectors.
    Refresh,
    /// The index is built.
    Build,
}

/// What comes of an answer to a build.
pub enum BuildStep {
    Next(BuildStage),
    Done,
    Failed(CoordinatorError),
}

/// The contents of a [`BuildStep`].
#[verifier::ext_equal]
pub enum BuildModel {
    Next(BuildStage),
    Done,
    Failed(CoordinatorFault),
}

impl View for BuildStep {
    type V = BuildModel;

    open spec fn view(&self) -> BuildModel {
        match *self {
            BuildStep::Next(stage) => BuildModel::Next(stage),
            BuildStep::Done => BuildModel::Done,
            BuildStep::Failed(e) => BuildModel::Failed(e@),
        }
    }
}

/// The stage that follows the rows and the batches of a build.
pub open spec fn build_embed_stage(batches: usize) -> BuildStage {
    if batches == 0 {
        BuildStage::Refresh
    } else {
        BuildStage::Embed { batches }
    }
}

/// A stage that is entered only while the generation is desired.
pub open spec fn while_desired(
    generation: u64,
    state: Result<GenerationState, StoreFailure>,
    stage: BuildStage,
) -> BuildModel {
    match state {
        Err(e) => BuildModel::Failed(CoordinatorFault::Store(e)),
        Ok(s) => if s.desired_generation != generation {
            BuildModel::Failed(outdated(generation, s.desired_generation))
        } else {
            BuildModel::Next(stage)
        },
    }
}

/// What an answer to a build leads to.
pub open spec fn build_step(generation: u64, stage: BuildStage, event: RebuildEvent) -> BuildModel {
    match (stage, event) {
        (BuildStage::Check, RebuildEvent::State { state, .. }) => while_desired(
            generation,
            state,
            BuildStage::Snapshot,
        ),
        (BuildStage::Snapshot, RebuildEvent::Snapshot(answer)) => match answer {
            Err(e) => BuildModel::Failed(CoordinatorFault::Store(e)),
            Ok(documents) => BuildModel::Next(build_embed_stage(batch_count(documents))),
        },
        (BuildStage::Embed { batches }, RebuildEvent::Batch(answer)) => match answer {
            Err(e) => BuildModel::Failed(e@),
            Ok(()) => BuildModel::Next(
                build_embed_stage(
                    if batches == 0 {
                        0
                    } else {
                        (batches - 1) as usize
                    },
                ),
            ),
        },
        (BuildStage::Refresh, RebuildEvent::Refreshed { rows, state }) => match rows {
            Err(e) => BuildModel::Failed(e@),
            Ok(()) => while_desired(generation, state, BuildStage::Build),
        },
        (BuildStage::Build, RebuildEvent::Built(built)) => match built {
            Err(e) => BuildModel::Failed(CoordinatorFault::Index(e@)),
            Ok(()) => BuildModel::Done,
        },
        (stage, _) => BuildModel::Next(stage),
    }
}

fn next_while_desired(
    generation: u64,
    state: Result<GenerationState, StoreFailure>,
    stage: BuildStage,
) -> (r: BuildStep)
    ensures
        r@ == while_desired(generation, state, stage),
{
    match state {
        Err(e) => BuildStep::Failed(CoordinatorError::Store(e)),
        Ok(s) => match ensure_generation_current(&s, generation) {
            Err(e) => BuildStep::Failed(e),
            Ok(()) => BuildStep::Next(stage),
        },
    }
}

/// Takes the build of a generation one answer further, from its rows to its index. An
/// answer to another stage is passed over.
pub fn build_generation(generation: u64, stage: BuildStage, event: RebuildEvent) -> (r: BuildStep)
    ensures
        r@ == build_step(generation, stage, event),
{
    match (stage, event) {
        (BuildStage::Check, RebuildEvent::State { state, .. }) => next_while_desired(
            generation,
            state,
            BuildStage::Snapshot,
        ),
        (BuildStage::Snapshot, RebuildEvent::Snapshot(answer)) => match answer {
            Err(e) => BuildStep::Failed(CoordinatorError::Store(e)),
            Ok(documents) => {
                if documents == 0 {
                    BuildStep::Next(BuildStage::Refresh)
                } else {
                    let batches: usize = (documents - 1) / EMBEDDING_BATCH_SIZE + 1;
                    BuildStep::Next(BuildStage::Embed { batches })
                }
            },
        },
        (BuildStage::Embed { batches }, RebuildEvent::Batch(answer)) => match answer {
            Err(e) => BuildStep::Failed(e),
            Ok(()) => {
                if batches <= 1 {
                    BuildStep::Next(BuildStage::Refresh)
                } else {
                    BuildStep::Next(BuildStage::Embed { batches: batches - 1 })
                }
            },
        },
        (BuildStage::Refresh, RebuildEvent::Refreshed { rows, state }) => match rows {
            Err(e) => BuildStep::Failed(e),
            Ok(()) => next_while_desired(generation, state, BuildStage::Build),
        },
        (BuildStage::Build, RebuildEvent::Built(built)) => match built {
            Err(e) => BuildStep::Failed(CoordinatorError::Index(e)),
            Ok(()) => BuildStep::Done,
        },
        (stage, _) => BuildStep::Next(stage),
    }
}

/// A rebuild puts a generation before readers only after durable state has
/// acknowledged it, or still desires it where it was applied before; and a graph
/// replaces only the generation that it was built for.
pub proof fn law_rebuilds_publish_acknowledged_generations(
    stage: RebuildStage,
    event: RebuildEvent,
)
    ensures
        rebuild_step(stage, event) matches RebuildModel::Next(RebuildStage::Publish { generation })
            ==> {
            ||| stage == (RebuildStage::Publish { generation })
            ||| stage == (RebuildStage::Acknowledge { generation }) && (
            event matches RebuildEvent::Acknowledged(Ok(())))
            ||| stage == (RebuildStage::Recheck { generation }) && (
            event matches RebuildEvent::State { state: Ok(s), .. } && s.desired_generation
                == generation)
        },
        rebuild_step(stage, event) matches RebuildModel::Done { generation, with_graph: true }
            ==> (event matches RebuildEvent::Graph { state: Ok(s), published } && s.applied_generation
            == generation && s.desired_generation == generation && published == generation),
{
}

/// A complete generation that readers have is not rebuilt: nothing is requested, and
/// the applied generation is the answer.
pub proof fn law_a_complete_generation_is_kept(state: GenerationState)
    requires
        state.complete(),
    ensures
        rebuild_step(
            RebuildStage::Check,
            RebuildEvent::State { state: Ok(state), hydrated: true },
        ) == (RebuildModel::Done { generation: state.applied_generation, with_graph: false }),
{
}

/// A row stands for a canary that is to be tried in the place of an active revision.
pub open spec fn may_be_tried(row: CandidateRow, active: Seq<char>, lineage: Seq<char>) -> bool {
    row.status@ == "canary"@ && row.supersedes_id is Some && row.supersedes_id->0@ == active
        && row.lineage_root_id@ == lineage
}

proof fn lemma_first_replacement(
    rows: Seq<CandidateRow>,
    active: Seq<char>,
    lineage: Seq<char>,
    n: nat,
)
    requires
        n <= rows.len(),
    ensures
        match first_replacement(rows, active, lineage, n) {
            None => forall|i: int|
                0 <= i < n ==> !may_be_tried(#[trigger] rows[i], active, lineage),
            Some(k) => 0 <= k < n && may_be_tried(rows[k], active, lineage) && forall|i: int|
                0 <= i < n && i != k && may_be_tried(#[trigger] rows[i], active, lineage)
                    ==> !goes_before(rows[i], rows[k]),
        },
    decreases n,
{
    if n > 0 {
        lemma_first_replacement(rows, active, lineage, (n - 1) as nat);
        text::lemma_lex_total_ordering();
        let leq = text::lex_order();
        let row = rows[n - 1];
        assert(is_replacement(row, active, lineage) == may_be_tried(row, active, lineage));
        if let Some(k) = first_replacement(rows, active, lineage, (n - 1) as nat) {
            if may_be_tried(row, active, lineage) && goes_before(row, rows[k]) {
                assert forall|i: int|
                    0 <= i < n && i != n - 1 && may_be_tried(
                        #[trigger] rows[i],
                        active,
                        lineage,
                    ) implies !goes_before(rows[i], row) by {
                    let a = rows[i];
                    let b = rows[k];
                    assert(leq(a.id@, b.id@) || leq(b.id@, a.id@));
                    if goes_before(a, row) {
                        if i != k {
                            assert(!goes_before(a, b));
                        }
                        if leq(a.id@, row.id@) && leq(row.id@, b.id@) {
                            assert(leq(a.id@, b.id@));
                        }
                        if leq(row.id@, b.id@) && leq(b.id@, row.id@) {
                            assert(row.id@ == b.id@);
                        }
                        if leq(a.id@, b.id@) && leq(b.id@, a.id@) {
                            assert(a.id@ == b.id@);
                        }
                        if leq(a.id@, row.id@) && leq(row.id@, a.id@) {
                            assert(row.id@ == a.id@);
                        }
                    }
                }
            }
        }
    }
}

/// The canary that is tried is one that replaces just the active revision, in its
/// lineage; of several, one that has been tried least, and of those the oldest. There is
/// none only where there is no such canary or the revision is not active.
pub proof fn law_the_least_tried_canary_is_tried(
    active: Seq<char>,
    lineage: Option<String>,
    rows: Seq<CandidateRow>,
)
    ensures
        match chosen_replacement(active, lineage, rows) {
            None => lineage is None || forall|i: int|
                0 <= i < rows.len() ==> !may_be_tried(#[trigger] rows[i], active, lineage->0@),
            Some(k) => {
                &&& lineage is Some
                &&& 0 <= k < rows.len()
                &&& may_be_tried(rows[k], active, lineage->0@)
                &&& forall|i: int|
                    0 <= i < rows.len() && may_be_tried(#[trigger] rows[i], active, lineage->0@)
                        ==> rows[k].invocations < rows[i].invocations || (rows[k].invocations
                        == rows[i].invocations && rows[k].created_at <= rows[i].created_at)
            },
        },
{
    if lineage is Some {
        lemma_first_replacement(rows, active, lineage->0@, rows.len());
    }
}

/// A turn binds just what is active or canary: each such id once, in the order of the
/// selection, and nothing that is anything else or is gone.
pub proof fn law_turns_bind_only_what_is_active_or_canary(
    ids: Seq<Seq<char>>,
    statuses: Seq<Option<String>>,
    id: Seq<char>,
)
    requires
        ids.len() == statuses.len(),
    ensures
        bindable_ids(ids, statuses, ids.len()).contains(id) <==> exists|i: int|
            0 <= i < ids.len() && #[trigger] ids[i] == id && (statuses[i] matches Some(s) && (s@
                == "active"@ || s@ == "canary"@)),
        bindable_ids(ids, statuses, ids.len()).no_duplicates(),
{
    lemma_bindable_ids(ids, statuses, ids.len(), id);
    lemma_bound_once(ids, statuses, ids.len());
    let wanted = exists|i: int|
        0 <= i < ids.len() && #[trigger] ids[i] == id && (statuses[i] matches Some(s) && (s@
            == "active"@ || s@ == "canary"@));
    if exists|i: int| 0 <= i < ids.len() && #[trigger] ids[i] == id && bindable(statuses[i]) {
        let i = choose|i: int|
            0 <= i < ids.len() && #[trigger] ids[i] == id && bindable(statuses[i]);
        assert(ids[i] == id);
    }
    if wanted {
        let i = choose|i: int|
            0 <= i < ids.len() && #[trigger] ids[i] == id && (statuses[i] matches Some(s) && (s@
                == "active"@ || s@ == "canary"@));
        assert(ids[i] == id && bindable(statuses[i]));
    }
}

proof fn lemma_bound_once(ids: Seq<Seq<char>>, statuses: Seq<Option<String>>, n: nat)
    requires
        n <= ids.len(),
    ensures
        bindable_ids(ids, statuses, n).no_duplicates(),
    decreases n,
{
    if n > 0 {
        lemma_bound_once(ids, statuses, (n - 1) as nat);
    }
}

/// A declaration resolves to a skill only where the skill is active and its identity
/// holds.
pub proof fn law_only_active_and_untouched_skills_resolve(
    row: DeclaredRow,
    r: Result<Option<SkillArtifact>, String>,
)
    requires
        resolves(row, r),
    ensures
        r matches Ok(Some(artifact)) ==> (row.status matches Ok(Some(status)) && status@
            == "active"@) && row.artifact == Ok::<_, String>(Some(artifact))
            && artifact@.stored_fault() is None,
        (row.status matches Ok(Some(status)) && status@ == "active"@) && (row.artifact matches Ok(
            Some(artifact),
        ) && artifact@.stored_fault() is None) ==> r == row.artifact,
        row.status == Ok::<Option<String>, String>(None) ==> r matches Ok(None),
{
}

/// A row has no vector of a model.
pub open spec fn lacks_vector(row: BackfillRow, model: ModelMetadata) -> bool {
    match row.embedding {
        None => true,
        Some(e) => e.model_id@ != model.model_id@ || e.model_revision@ != model.model_revision@
            || e.dimensions != model.dimensions || e.normalized != model.normalized
            || e.values@.len() != model.dimensions,
    }
}

/// What has to be embedded are just the skills that have no vector of the model in use:
/// all of them, in order, each with its own document.
pub proof fn law_just_what_lacks_a_vector_is_embedded(
    rows: Seq<BackfillRow>,
    model: ModelMetadata,
)
    ensures
        missing(rows, model) == rows.filter(|row: BackfillRow| lacks_vector(row, model)).map_values(
            |row: BackfillRow|
                (row.artifact.id@, embed::artifact_document(row.artifact).rendered()),
        ),
    decreases rows.len(),
{
    reveal(Seq::filter);
    let lacks = |row: BackfillRow| lacks_vector(row, model);
    let told = |row: BackfillRow|
        (row.artifact.id@, embed::artifact_document(row.artifact).rendered());
    if rows.len() > 0 {
        let init = rows.drop_last();
        law_just_what_lacks_a_vector_is_embedded(init, model);
        assert(needs_vector(rows.last(), model) == lacks(rows.last()));
        if lacks(rows.last()) {
            assert(init.filter(lacks).push(rows.last()).map_values(told) =~= init.filter(
                lacks,
            ).map_values(told).push(told(rows.last())));
        }
    } else {
        assert(rows.filter(lacks).map_values(told) =~= missing(rows, model));
    }
}

/// A generation counts as complete only where it is both desired and applied, in full;
/// it is current only where it is both; and vectors are of a model only where everything
/// about the model agrees.
pub proof fn law_generations_are_complete_only_in_full(
    state: GenerationState,
    generation: u64,
    model: ModelMetadata,
)
    ensures
        state.complete() <==> state.desired_generation == state.applied_generation
            && state.publication_mode@ == "full"@,
        state.at(generation) <==> state.applied_generation == generation
            && state.desired_generation == generation,
        state.is_for(model) <==> state.model_id@ == model.model_id@ && state.model_revision@
            == model.model_revision@ && state.dimensions == model.dimensions && state.normalized
            == model.normalized,
{
}

/// What is read again before an index is built must be whole: every skill that was there
/// is there once, with a vector of the model in use.
pub proof fn law_an_index_is_built_only_of_whole_rows(
    initial: Seq<SkillArtifact>,
    rows: Seq<FreshRow>,
    model: ModelMetadata,
    i: int,
)
    requires
        refresh_fault_from(initial, rows, model, 0) is None,
        0 <= i < initial.len(),
    ensures
        exists|k: int|
            0 <= k < rows.len() && (#[trigger] rows[k]).skill_id@ == initial[i].id@ && (
            rows[k].embedding matches Some(e) && e.model_id@ == model.model_id@
                && e.model_revision@ == model.model_revision@ && e.dimensions == model.dimensions
                && e.normalized == model.normalized && e.values@.len() == model.dimensions),
        forall|j: int| 0 <= j < i ==> (#[trigger] initial[j]).id@ != initial[i].id@,
{
    lemma_no_refresh_fault(initial, rows, model, 0, i);
    lemma_fresh_position(rows, initial[i].id@, rows.len());
}

proof fn lemma_no_refresh_fault(
    initial: Seq<SkillArtifact>,
    rows: Seq<FreshRow>,
    model: ModelMetadata,
    from: int,
    i: int,
)
    requires
        0 <= from <= i < initial.len(),
        refresh_fault_from(initial, rows, model, from) is None,
    ensures
        fresh_fault(initial, rows, model, i) is None,
    decreases i - from,
{
    if from < i {
        lemma_no_refresh_fault(initial, rows, model, from + 1, i);
    }
}

proof fn lemma_fresh_position(rows: Seq<FreshRow>, id: Seq<char>, n: nat)
    requires
        n <= rows.len(),
    ensures
        fresh_position(rows, id, n) matches Some(k) ==> 0 <= k < n && rows[k].skill_id@ == id,
    decreases n,
{
    if n > 0 && rows[n - 1].skill_id@ != id {
        lemma_fresh_position(rows, id, (n - 1) as nat);
    }
}

proof fn lemma_found_candidates(
    ids: Seq<String>,
    found: Seq<Option<(SkillArtifact, CanaryCandidate)>>,
    n: nat,
    id: Seq<char>,
)
    requires
        n <= ids.len(),
        n <= found.len(),
    ensures
        routed_once(found_candidates(ids, found, n)),
        forall|c: int|
            0 <= c < found_candidates(ids, found, n).len() && (
            #[trigger] found_candidates(ids, found, n)[c]).0 == id ==> exists|i: int|
                0 <= i < n && (#[trigger] ids[i])@ == id && found[i] == Some(
                    (
                        found_candidates(ids, found, n)[c].1,
                        found_candidates(ids, found, n)[c].2,
                    ),
                ) && forall|j: int|
                    i < j < n && (#[trigger] ids[j])@ == id ==> found[j] is None,
        (exists|i: int| 0 <= i < n && (#[trigger] ids[i])@ == id && found[i] is Some) ==> exists|
            c: int,
        |
            0 <= c < found_candidates(ids, found, n).len() && (
            #[trigger] found_candidates(ids, found, n)[c]).0 == id,
    decreases n,
{
    if n > 0 {
        let m = (n - 1) as nat;
        lemma_found_candidates(ids, found, m, id);
        let before = found_candidates(ids, found, m);
        let after = found_candidates(ids, found, n);
        match found[n - 1] {
            None => {
                assert forall|c: int|
                    0 <= c < after.len() && (#[trigger] after[c]).0 == id implies exists|i: int|
                    0 <= i < n && (#[trigger] ids[i])@ == id && found[i] == Some(
                        (after[c].1, after[c].2),
                    ) && forall|j: int|
                        i < j < n && (#[trigger] ids[j])@ == id ==> found[j] is None by {
                    let i = choose|i: int|
                        0 <= i < m && (#[trigger] ids[i])@ == id && found[i] == Some(
                            (before[c].1, before[c].2),
                        ) && forall|j: int|
                            i < j < m && (#[trigger] ids[j])@ == id ==> found[j] is None;
                    assert(ids[i]@ == id);
                }
            },
            Some((artifact, candidate)) => {
                let name = ids[n - 1]@;
                let p = routed_from(name);
                let routed = (name, artifact, candidate);
                match crate::store::position(before, p) {
                    Some(at) => {
                        assert(crate::store::first_match(before, p, at));
                        assert(after[at] == routed);
                    },
                    None => {
                        assert(after[before.len() as int] == routed);
                        assert forall|c: int| 0 <= c < before.len() implies (
                        #[trigger] before[c]).0 != name by {
                            if before[c].0 == name {
                                crate::store::lemma_some_match_is_found(before, p, c);
                            }
                        }
                    },
                }
                assert forall|c: int|
                    0 <= c < after.len() && (#[trigger] after[c]).0 == id implies exists|i: int|
                    0 <= i < n && (#[trigger] ids[i])@ == id && found[i] == Some(
                        (after[c].1, after[c].2),
                    ) && forall|j: int|
                        i < j < n && (#[trigger] ids[j])@ == id ==> found[j] is None by {
                    if name == id {
                        assert(after[c] == routed);
                        assert(ids[n - 1]@ == id);
                    } else {
                        assert(after[c] == before[c]);
                        let i = choose|i: int|
                            0 <= i < m && (#[trigger] ids[i])@ == id && found[i] == Some(
                                (before[c].1, before[c].2),
                            ) && forall|j: int|
                                i < j < m && (#[trigger] ids[j])@ == id ==> found[j] is None;
                        assert(ids[i]@ == id);
                    }
                }
                if exists|i: int| 0 <= i < n && (#[trigger] ids[i])@ == id && found[i] is Some {
                    if name != id {
                        let i = choose|i: int|
                            0 <= i < n && (#[trigger] ids[i])@ == id && found[i] is Some;
                        assert(i < m);
                        let c = choose|c: int| 0 <= c < before.len() && (#[trigger] before[c]).0
                            == id;
                        assert(after[c] == before[c]);
                    }
                }
            },
        }
        if found[n - 1] is None {
            if exists|i: int| 0 <= i < n && (#[trigger] ids[i])@ == id && found[i] is Some {
                let i = choose|i: int|
                    0 <= i < n && (#[trigger] ids[i])@ == id && found[i] is Some;
                assert(i < m);
            }
        }
    }
}

/// Routing knows, for each active revision that a canary was found for, just that canary,
/// and knows nothing of any other revision.
pub proof fn law_routing_knows_each_canary_once(
    ids: Seq<String>,
    found: Seq<Option<(SkillArtifact, CanaryCandidate)>>,
    id: Seq<char>,
)
    requires
        ids.len() == found.len(),
    ensures
        ({
            let all = found_candidates(ids, found, ids.len());
            &&& routed_once(all)
            &&& forall|c: int|
                0 <= c < all.len() && (#[trigger] all[c]).0 == id ==> exists|i: int|
                    0 <= i < ids.len() && (#[trigger] ids[i])@ == id && found[i] == Some(
                        (all[c].1, all[c].2),
                    )
            &&& (exists|i: int|
                0 <= i < ids.len() && (#[trigger] ids[i])@ == id && found[i] is Some) ==> exists|
                c: int,
            |
                0 <= c < all.len() && (#[trigger] all[c]).0 == id
        }),
{
    lemma_found_candidates(ids, found, ids.len(), id);
    let all = found_candidates(ids, found, ids.len());
    assert forall|c: int| 0 <= c < all.len() && (#[trigger] all[c]).0 == id implies exists|i: int|
        0 <= i < ids.len() && (#[trigger] ids[i])@ == id && found[i] == Some((all[c].1, all[c].2)) by {
        let i = choose|i: int|
            0 <= i < ids.len() && (#[trigger] ids[i])@ == id && found[i] == Some(
                (all[c].1, all[c].2),
            ) && forall|j: int|
                i < j < ids.len() && (#[trigger] ids[j])@ == id ==> found[j] is None;
        assert(ids[i]@ == id);
    }
}

/// A coordinated change goes from its commit over hiding, the acknowledgement of the
/// removals and the build to the acknowledgement of the whole; where the build fails,
/// durable state is told why. A change that fails to commit, and a lock that is lost, end
/// it.
pub proof fn law_coordinated_changes_go_step_by_step<E>(
    generation: u64,
    error: E,
    diagnostic: String,
    state: Option<GenerationState>,
    stage: MutationStage,
)
    ensures
        mutation_step(
            MutationStage::Commit,
            MutationEvent::<E>::Committed(Ok(generation)),
        ) == MutationModel::<E>::Next(MutationStage::Hide { generation }),
        mutation_step(
            MutationStage::Commit,
            MutationEvent::<E>::Committed(Err(error)),
        ) == MutationModel::<E>::Failed(CoordinatedFault::Mutation(error)),
        mutation_step(
            MutationStage::Hide { generation },
            MutationEvent::<E>::Hidden,
        ) == MutationModel::<E>::Next(MutationStage::MarkRemoval { generation }),
        mutation_step(
            MutationStage::MarkRemoval { generation },
            MutationEvent::<E>::Marked { answer: Ok(()), state },
        ) == MutationModel::<E>::Next(MutationStage::Build { generation }),
        mutation_step(
            MutationStage::Build { generation },
            MutationEvent::<E>::Built(Ok(())),
        ) == MutationModel::<E>::Next(MutationStage::MarkFull { generation }),
        mutation_step(
            MutationStage::Build { generation },
            MutationEvent::<E>::Built(Err(diagnostic)),
        ) == MutationModel::<E>::Next(MutationStage::MarkDegraded { generation, diagnostic }),
        mutation_step(
            MutationStage::MarkFull { generation },
            MutationEvent::<E>::Marked { answer: Ok(()), state },
        ) == (MutationModel::<E>::Report {
            report: PublicationModel { generation, removal_only: false, diagnostic: None },
            publish: true,
        }),
        mutation_step(
            MutationStage::MarkDegraded { generation, diagnostic },
            MutationEvent::<E>::Marked { answer: Ok(()), state },
        ) == (MutationModel::<E>::Report {
            report: PublicationModel {
                generation,
                removal_only: true,
                diagnostic: Some(diagnostic@),
            },
            publish: false,
        }),
        mutation_step(stage, MutationEvent::<E>::Poisoned) is Failed,
        removal_step(
            MutationStage::MarkRemoval { generation },
            MutationEvent::<E>::Marked { answer: Ok(()), state },
        ) == (MutationModel::<E>::Report {
            report: PublicationModel { generation, removal_only: true, diagnostic: None },
            publish: false,
        }),
        (MutationStage::MarkRemoval { generation }).action() == (ActionModel::Acknowledge {
            generation,
            mode: "removal_only"@,
            diagnostic: None,
        }),
        (MutationStage::MarkFull { generation }).action() == (ActionModel::Acknowledge {
            generation,
            mode: "full"@,
            diagnostic: None,
        }),
        (MutationStage::MarkDegraded { generation, diagnostic }).action() == (
        ActionModel::Acknowledge {
            generation,
            mode: "removal_only"@,
            diagnostic: Some(diagnostic@),
        }),
{
}

/// Where durable state refuses an acknowledgement, a change that was overtaken by a newer
/// removal reports that one, without publishing; otherwise the refusal is the answer.
pub proof fn law_refused_acknowledgements_are_reported<E>(
    stage: MutationStage,
    error: StoreFailure,
    state: Option<GenerationState>,
)
    requires
        stage is MarkRemoval || stage is MarkFull || stage is MarkDegraded,
    ensures
        ({
            let step = mutation_step(
                stage,
                MutationEvent::<E>::Marked { answer: Err(error), state },
            );
            let generation = stage.generation()->0;
            if state matches Some(s) && s.desired_generation > generation {
                step matches MutationModel::Report { report, publish } && !publish
                    && report.generation == state->0.desired_generation && report.removal_only
            } else {
                step == MutationModel::<E>::Failed(
                    CoordinatedFault::Publication(CoordinatorFault::Store(error)),
                )
            }
        }),
{
}

/// A rebuild goes on only with the generation that it works for: what is desired and not
/// applied comes first, then what readers have not had, and only then a new one. Its
/// documents are embedded in batches of at most 256, all of them, before the rows are read
/// again; and it is given up where the generation is no longer desired.
pub proof fn law_rebuilds_work_for_the_desired_generation(
    state: GenerationState,
    hydrated: bool,
    generation: u64,
    acknowledge: bool,
    documents: usize,
    batches: usize,
)
    ensures
        planned_stage(state, hydrated) == (if state.desired_generation
            > state.applied_generation {
            RebuildStage::Snapshot { generation: state.desired_generation, acknowledge: true }
        } else if !hydrated && state.applied_generation > 0 && state.desired_generation
            == state.applied_generation && state.publication_mode@ == "full"@ {
            RebuildStage::Snapshot { generation: state.applied_generation, acknowledge: false }
        } else {
            RebuildStage::Request
        }),
        256 * batch_count(documents) >= documents,
        documents > 0 ==> 256 * (batch_count(documents) - 1) < documents,
        documents == 0 ==> batch_count(documents) == 0,
        rebuild_step(
            RebuildStage::Snapshot { generation, acknowledge },
            RebuildEvent::Snapshot(Ok(documents)),
        ) == RebuildModel::Next(
            if documents == 0 {
                RebuildStage::Refresh { generation, acknowledge }
            } else {
                RebuildStage::Embed { generation, acknowledge, batches: batch_count(documents) }
            },
        ),
        rebuild_step(
            RebuildStage::Embed { generation, acknowledge, batches },
            RebuildEvent::Batch(Ok(())),
        ) == RebuildModel::Next(
            if batches <= 1 {
                RebuildStage::Refresh { generation, acknowledge }
            } else {
                RebuildStage::Embed { generation, acknowledge, batches: (batches - 1) as usize }
            },
        ),
        rebuild_step(
            RebuildStage::Refresh { generation, acknowledge },
            RebuildEvent::Refreshed { rows: Ok(()), state: Ok(state) },
        ) == (if state.desired_generation == generation {
            RebuildModel::Next(RebuildStage::Build { generation, acknowledge })
        } else {
            RebuildModel::Failed(outdated(generation, state.desired_generation))
        }),
        rebuild_step(
            RebuildStage::Build { generation, acknowledge },
            RebuildEvent::Built(Ok(())),
        ) == RebuildModel::Next(
            if acknowledge {
                RebuildStage::Acknowledge { generation }
            } else {
                RebuildStage::Recheck { generation }
            },
        ),
        rebuild_step(
            RebuildStage::Request,
            RebuildEvent::Requested(Ok(generation)),
        ) == RebuildModel::Next(RebuildStage::Snapshot { generation, acknowledge: true }),
        build_step(
            generation,
            BuildStage::Check,
            RebuildEvent::State { state: Ok(state), hydrated },
        ) == (if state.desired_generation == generation {
            BuildModel::Next(BuildStage::Snapshot)
        } else {
            BuildModel::Failed(outdated(generation, state.desired_generation))
        }),
        build_step(generation, BuildStage::Snapshot, RebuildEvent::Snapshot(Ok(documents)))
            == BuildModel::Next(
            if documents == 0 {
                BuildStage::Refresh
            } else {
                BuildStage::Embed { batches: batch_count(documents) }
            },
        ),
        build_step(generation, BuildStage::Embed { batches }, RebuildEvent::Batch(Ok(())))
            == BuildModel::Next(
            if batches <= 1 {
                BuildStage::Refresh
            } else {
                BuildStage::Embed { batches: (batches - 1) as usize }
            },
        ),
        build_step(
            generation,
            BuildStage::Refresh,
            RebuildEvent::Refreshed { rows: Ok(()), state: Ok(state) },
        ) == (if state.desired_generation == generation {
            BuildModel::Next(BuildStage::Build)
        } else {
            BuildModel::Failed(outdated(generation, state.desired_generation))
        }),
        build_step(generation, BuildStage::Build, RebuildEvent::Built(Ok(()))) == BuildModel::Done,
{
}

/// A step of a rebuild that fails ends it: neither anything later is asked for nor is
/// anything published.
pub proof fn law_failed_steps_end_a_rebuild(
    stage: RebuildStage,
    generation: u64,
    build: BuildStage,
    error: StoreFailure,
    cause: CoordinatorError,
    message: String,
    hydrated: bool,
    published: u64,
)
    ensures
        stage is Check || stage is Plan || stage is Recheck ==> rebuild_step(
            stage,
            RebuildEvent::State { state: Err(error), hydrated },
        ) is Failed,
        stage is Request ==> rebuild_step(stage, RebuildEvent::Requested(Err(error))) is Failed,
        stage is Snapshot ==> rebuild_step(stage, RebuildEvent::Snapshot(Err(error))) is Failed,
        stage is Embed ==> rebuild_step(stage, RebuildEvent::Batch(Err(cause))) is Failed,
        stage is Refresh ==> forall|state: Result<GenerationState, StoreFailure>| #[trigger]
            rebuild_step(stage, RebuildEvent::Refreshed { rows: Err(cause), state }) is Failed,
        stage is Build ==> rebuild_step(stage, RebuildEvent::Built(Err(message))) is Failed,
        stage is Acknowledge ==> rebuild_step(stage, RebuildEvent::Acknowledged(Err(error)))
            is Failed,
        stage is Graph ==> rebuild_step(
            stage,
            RebuildEvent::Graph { state: Err(error), published },
        ) is Failed,
        build is Check ==> build_step(
            generation,
            build,
            RebuildEvent::State { state: Err(error), hydrated },
        ) is Failed,
        build is Snapshot ==> build_step(generation, build, RebuildEvent::Snapshot(Err(error)))
            is Failed,
        build is Embed ==> build_step(generation, build, RebuildEvent::Batch(Err(cause)))
            is Failed,
        build is Refresh ==> forall|state: Result<GenerationState, StoreFailure>| #[trigger]
            build_step(generation, build, RebuildEvent::Refreshed { rows: Err(cause), state })
                is Failed,
        build is Build ==> build_step(generation, build, RebuildEvent::Built(Err(message)))
            is Failed,
{
}

} // verus!
