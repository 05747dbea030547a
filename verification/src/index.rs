//! Immutable generation-stamped retrieval of learned skills.
//!
//! A snapshot holds the active skills of one generation. Scores are floating-point
//! numbers that are made outside the library; it receives them as integers that
//! order as the numbers do, and decides which skills a query gets.

use crate::artifact::SkillArtifact;
use crate::embed::ModelMetadata;
use crate::text;
use std::time::Duration;
use vstd::prelude::*;
use vstd::string::*;

verus! {

/// How long a query may be, in bytes.
pub const MAX_QUERY_BYTES: usize = 8192;

/// How many terms of a query are looked at.
pub const MAX_QUERY_TERMS: usize = 64;

/// How many terms of a query are searched for.
pub const MAX_FTS_QUERY_TERMS: usize = 16;

/// From how many rows on a graph is built.
pub const ANN_MIN_ROWS: usize = 10_000;

/// How many neighbours are asked of the graph at least.
pub const ANN_MIN_CANDIDATES: usize = 16;

/// What every manifest is taken to cost beyond its texts, in bytes.
pub const MANIFEST_OVERHEAD_BYTES: usize = 128;

/// The bounds of a retrieval.
#[derive(Debug, Clone, PartialEq, Eq)]
pub struct RetrievalPolicy {
    pub max_skills: usize,
    pub dense_candidate_limit: usize,
    pub lexical_candidate_limit: usize,
    pub manifest_byte_budget: usize,
    pub source_byte_budget: usize,
}

impl Default for RetrievalPolicy {
    fn default() -> (r: RetrievalPolicy)
        ensures
            r == (RetrievalPolicy {
                max_skills: 3,
                dense_candidate_limit: 16,
                lexical_candidate_limit: 24,
                manifest_byte_budget: 8192,
                source_byte_budget: 65536,
            }),
    {
        RetrievalPolicy {
            max_skills: 3,
            dense_candidate_limit: 16,
            lexical_candidate_limit: 24,
            manifest_byte_budget: 8192,
            source_byte_budget: 65536,
        }
    }
}

/// How long the stages of a search took.
#[derive(Debug, Clone, Copy)]
pub struct SearchStageDurations {
    pub dense: Duration,
    pub lexical: Duration,
    pub fusion_and_budgets: Duration,
}

/// Why a snapshot or a search was refused.
#[derive(Debug, Clone, PartialEq, Eq)]
pub enum SkillIndexError {
    QueryTooLarge,
    DimensionMismatch { expected: usize, actual: usize },
    NonFiniteQuery,
    UnnormalizedQuery,
    IncompatibleEmbedding { skill_id: String },
    IneligibleArtifact { skill_id: String },
    Lexical(String),
    LexicalPoisoned,
}

/// The contents of a [`SkillIndexError`].
#[verifier::ext_equal]
pub enum IndexFault {
    QueryTooLarge,
    DimensionMismatch { expected: usize, actual: usize },
    NonFiniteQuery,
    UnnormalizedQuery,
    IncompatibleEmbedding { skill_id: Seq<char> },
    IneligibleArtifact { skill_id: Seq<char> },
    Lexical(Seq<char>),
    LexicalPoisoned,
}

impl View for SkillIndexError {
    type V = IndexFault;

    open spec fn view(&self) -> IndexFault {
        match *self {
            SkillIndexError::QueryTooLarge => IndexFault::QueryTooLarge,
            SkillIndexError::DimensionMismatch { expected, actual } => {
                IndexFault::DimensionMismatch { expected, actual }
            },
            SkillIndexError::NonFiniteQuery => IndexFault::NonFiniteQuery,
            SkillIndexError::UnnormalizedQuery => IndexFault::UnnormalizedQuery,
            SkillIndexError::IncompatibleEmbedding { skill_id } => {
                IndexFault::IncompatibleEmbedding { skill_id: skill_id@ }
            },
            SkillIndexError::IneligibleArtifact { skill_id } => {
                IndexFault::IneligibleArtifact { skill_id: skill_id@ }
            },
            SkillIndexError::Lexical(s) => IndexFault::Lexical(s@),
            SkillIndexError::LexicalPoisoned => IndexFault::LexicalPoisoned,
        }
    }
}

impl IndexFault {
    /// The sentence that reports the fault.
    pub open spec fn sentence(self) -> Seq<char> {
        match self {
            IndexFault::QueryTooLarge => "query exceeds the 8192-byte retrieval limit"@,
            IndexFault::DimensionMismatch { expected, actual } => {
                "query embedding dimensions mismatch: expected "@ + text::decimal(expected as nat)
                    + ", got "@ + text::decimal(actual as nat)
            },
            IndexFault::NonFiniteQuery => "query embedding contains a non-finite value"@,
            IndexFault::UnnormalizedQuery => "query embedding must be normalized"@,
            IndexFault::IncompatibleEmbedding { skill_id } => {
                "snapshot row "@ + skill_id + " has incompatible embedding metadata"@
            },
            IndexFault::IneligibleArtifact { skill_id } => {
                "snapshot row "@ + skill_id + " is not active or identity-valid"@
            },
            IndexFault::Lexical(s) => "lexical index error: "@ + s,
            IndexFault::LexicalPoisoned => "lexical snapshot lock was poisoned"@,
        }
    }
}

impl SkillIndexError {
    /// The sentence that reports the error.
    pub fn message(&self) -> (r: String)
        ensures
            r@ == self@.sentence(),
    {
        match self {
            SkillIndexError::QueryTooLarge => {
                "query exceeds the 8192-byte retrieval limit".to_owned()
            },
            SkillIndexError::DimensionMismatch { expected, actual } => {
                let wanted = text::render_u64(*expected as u64);
                let got = text::render_u64(*actual as u64);
                let mut out = text::join3(
                    "query embedding dimensions mismatch: expected ",
                    &wanted,
                    ", got ",
                );
                out.append(&got);
                out
            },
            SkillIndexError::NonFiniteQuery => {
                "query embedding contains a non-finite value".to_owned()
            },
            SkillIndexError::UnnormalizedQuery => "query embedding must be normalized".to_owned(),
            SkillIndexError::IncompatibleEmbedding { skill_id } => {
                text::join3("snapshot row ", skill_id, " has incompatible embedding metadata")
            },
            SkillIndexError::IneligibleArtifact { skill_id } => {
                text::join3("snapshot row ", skill_id, " is not active or identity-valid")
            },
            SkillIndexError::Lexical(s) => text::join2("lexical index error: ", s),
            SkillIndexError::LexicalPoisoned => "lexical snapshot lock was poisoned".to_owned(),
        }
    }
}

/// A stored vector, held by the bits of its values. `unit` says that every value is
/// finite and that the vector has unit norm.
#[derive(Debug, Clone, PartialEq, Eq)]
pub struct StoredEmbedding {
    pub skill_id: String,
    pub model_id: String,
    pub model_revision: String,
    pub dimensions: usize,
    pub normalized: bool,
    pub values: Vec<u32>,
    pub unit: bool,
}

/// What is recorded of a skill beside its artifact.
#[derive(Debug, Clone, PartialEq, Eq)]
pub struct SkillRecordMetadata {
    pub status: String,
    pub supersedes_id: Option<String>,
}

/// A row of which a snapshot is made. The grants are those of the artifact, each as
/// it is serialized.
#[derive(Debug, Clone, PartialEq, Eq)]
pub struct IndexRow {
    pub artifact: SkillArtifact,
    pub embedding: StoredEmbedding,
    pub metadata: SkillRecordMetadata,
    pub serialized_grants: Vec<String>,
}

/// The position behind every row whose id does not come after `id`, among rows in
/// order.
pub open spec fn row_point(rows: Seq<IndexRow>, id: Seq<char>, from: int) -> int
    decreases rows.len() - from,
{
    if from < 0 || from >= rows.len() || !text::lex_le(rows[from].artifact.id@, id) {
        from
    } else {
        row_point(rows, id, from + 1)
    }
}

/// The rows ordered by id; rows with one id keep their order.
pub open spec fn rows_by_id(rows: Seq<IndexRow>) -> Seq<IndexRow>
    decreases rows.len(),
{
    if rows.len() == 0 {
        rows
    } else {
        let before = rows_by_id(rows.drop_last());
        before.insert(row_point(before, rows.last().artifact.id@, 0), rows.last())
    }
}

fn insert_row(rows: &mut Vec<IndexRow>, row: IndexRow)
    ensures
        final(rows)@ == old(rows)@.insert(row_point(old(rows)@, row.artifact.id@, 0), row),
{
    let mut at: usize = 0;
    while at < rows.len() && text::text_le(&rows[at].artifact.id, &row.artifact.id)
        invariant
            at <= rows@.len(),
            rows@ == old(rows)@,
            row_point(rows@, row.artifact.id@, 0) == row_point(
                rows@,
                row.artifact.id@,
                at as int,
            ),
        decreases rows@.len() - at,
    {
        at = at + 1;
    }
    rows.insert(at, row);
}

fn sort_rows(rows: Vec<IndexRow>) -> (r: Vec<IndexRow>)
    ensures
        r@ == rows_by_id(rows@),
{
    let mut rest = rows;
    let ghost all = rest@;
    let mut out: Vec<IndexRow> = Vec::new();
    let ghost mut k: int = 0;
    proof {
        assert(all.skip(0) =~= all);
        assert(all.take(0).len() == 0);
        assert(out@ =~= rows_by_id(all.take(0)));
    }
    while rest.len() > 0
        invariant
            0 <= k <= all.len(),
            rest@ == all.skip(k),
            out@ == rows_by_id(all.take(k)),
        decreases rest@.len(),
    {
        let row = rest.remove(0);
        proof {
            assert(row == all[k]);
            assert(rest@ =~= all.skip(k + 1));
            assert(all.take(k + 1).drop_last() =~= all.take(k));
            assert(all.take(k + 1).last() == all[k]);
        }
        insert_row(&mut out, row);
        proof {
            k = k + 1;
        }
    }
    assert(all.take(k) =~= all);
    out
}

/// What is wrong with a row for a model.
pub open spec fn row_fault(row: IndexRow, model: ModelMetadata) -> Option<IndexFault> {
    let id = row.artifact.id@;
    if row.artifact@.stored_fault() is Some || row.metadata.status@ != "active"@ {
        Some(IndexFault::IneligibleArtifact { skill_id: id })
    } else if row.embedding.skill_id@ != id || row.embedding.model_id@ != model.model_id@
        || row.embedding.model_revision@ != model.model_revision@ || row.embedding.dimensions
        != model.dimensions || !row.embedding.normalized || row.embedding.values@.len()
        != model.dimensions || !row.embedding.unit {
        Some(IndexFault::IncompatibleEmbedding { skill_id: id })
    } else {
        None
    }
}

/// The fault of the first faulty row, from position `i` on.
pub open spec fn rows_fault_from(
    rows: Seq<IndexRow>,
    model: ModelMetadata,
    i: int,
) -> Option<IndexFault>
    decreases rows.len() - i,
{
    if i < 0 || i >= rows.len() {
        None
    } else if row_fault(rows[i], model) is Some {
        row_fault(rows[i], model)
    } else {
        rows_fault_from(rows, model, i + 1)
    }
}

fn check_row(row: &IndexRow, model: &ModelMetadata) -> (r: Result<(), SkillIndexError>)
    ensures
        match row_fault(*row, *model) {
            None => r is Ok,
            Some(f) => r is Err && r->Err_0@ == f,
        },
{
    if row.artifact.verify_identity().is_err() || !text::same(&row.metadata.status, "active") {
        return Err(SkillIndexError::IneligibleArtifact { skill_id: row.artifact.id.clone() });
    }
    let e = &row.embedding;
    if !text::same(&e.skill_id, &row.artifact.id) || !text::same(&e.model_id, &model.model_id)
        || !text::same(&e.model_revision, &model.model_revision) || e.dimensions
        != model.dimensions || !e.normalized || e.values.len() != model.dimensions || !e.unit {
        return Err(SkillIndexError::IncompatibleEmbedding { skill_id: row.artifact.id.clone() });
    }
    Ok(())
}

/// Names and signatures, each behind a null character.
pub open spec fn export_key(exports: Seq<crate::artifact::ExportModel>) -> Seq<char>
    decreases exports.len(),
{
    if exports.len() == 0 {
        Seq::empty()
    } else {
        export_key(exports.drop_last()).push('\0') + exports.last().name + seq!['\0']
            + exports.last().signature
    }
}

/// What two skills share that do the same thing under the same names.
pub open spec fn semantics(artifact: SkillArtifact) -> Seq<char> {
    text::lowercased(text::trimmed(artifact.description@)) + export_key(artifact@.exports)
}

/// The key that two skills share which do the same thing under the same names.
pub fn semantic_key(artifact: &SkillArtifact) -> (r: String)
    ensures
        r@ == semantics(*artifact),
        text::is_ascii_text(text::trimmed(artifact.description@)) ==> text::lowercased(
            text::trimmed(artifact.description@),
        ) == text::ascii_lower(text::trimmed(artifact.description@)),
{
    let trimmed = text::trim(&artifact.description);
    let mut key = text::to_lowercase(&trimmed);
    let ghost start = key@;
    let ghost exports = artifact@.exports;
    let mut i: usize = 0;
    proof {
        assert(exports.take(0).len() == 0);
        assert(key@ =~= start + export_key(exports.take(0)));
    }
    while i < artifact.exports.len()
        invariant
            i <= artifact.exports@.len(),
            exports == artifact@.exports,
            exports.len() == artifact.exports@.len(),
            key@ == start + export_key(exports.take(i as int)),
        decreases artifact.exports@.len() - i,
    {
        let ghost before = key@;
        key.push('\0');
        key.append(&artifact.exports[i].name);
        key.push('\0');
        key.append(&artifact.exports[i].signature);
        proof {
            assert(exports[i as int] == artifact.exports@[i as int]@);
            assert(exports.take(i + 1).drop_last() =~= exports.take(i as int));
            assert(exports.take(i + 1).last() == exports[i as int]);
            assert(key@ =~= start + export_key(exports.take(i + 1)));
        }
        i = i + 1;
    }
    assert(exports.take(exports.len() as int) =~= exports);
    key
}

/// The bytes of texts together.
pub open spec fn bytes_of_all(texts: Seq<Seq<char>>) -> nat
    decreases texts.len(),
{
    if texts.len() == 0 {
        0
    } else {
        bytes_of_all(texts.drop_last()) + text::utf8_len(texts.last())
    }
}

/// The bytes of exports together.
pub open spec fn bytes_of_exports(exports: Seq<crate::artifact::ExportModel>) -> nat
    decreases exports.len(),
{
    if exports.len() == 0 {
        0
    } else {
        bytes_of_exports(exports.drop_last()) + text::utf8_len(exports.last().name)
            + text::utf8_len(exports.last().signature)
    }
}

/// A sum held at the largest size there is.
pub open spec fn held(n: nat) -> usize {
    if n > usize::MAX {
        usize::MAX
    } else {
        n as usize
    }
}

fn sum(a: usize, b: usize) -> (r: usize)
    ensures
        r == held((a + b) as nat),
{
    if a > usize::MAX - b {
        usize::MAX
    } else {
        a + b
    }
}

/// What the manifest of a skill costs, in bytes.
pub open spec fn manifest_bytes(
    artifact: SkillArtifact,
    serialized_grants: Seq<Seq<char>>,
) -> usize {
    held(
        text::utf8_len(artifact.id@) + text::utf8_len(artifact.description@) + bytes_of_exports(
            artifact@.exports,
        ) + bytes_of_all(serialized_grants) + MANIFEST_OVERHEAD_BYTES as nat,
    )
}

/// What the manifest of a skill costs, in bytes.
pub fn manifest_size(artifact: &SkillArtifact, serialized_grants: &Vec<String>) -> (r: usize)
    ensures
        r == manifest_bytes(*artifact, text::views(serialized_grants@)),
{
    let ghost exports = artifact@.exports;
    let ghost grants = text::views(serialized_grants@);
    let ghost base = text::utf8_len(artifact.id@) + text::utf8_len(artifact.description@)
        + MANIFEST_OVERHEAD_BYTES as nat;
    let mut total = sum(
        sum(text::byte_len(&artifact.id), text::byte_len(&artifact.description)),
        MANIFEST_OVERHEAD_BYTES,
    );
    let mut i: usize = 0;
    proof {
        assert(exports.take(0).len() == 0);
    }
    while i < artifact.exports.len()
        invariant
            i <= artifact.exports@.len(),
            exports == artifact@.exports,
            exports.len() == artifact.exports@.len(),
            total == held(base + bytes_of_exports(exports.take(i as int))),
        decreases artifact.exports@.len() - i,
    {
        proof {
            assert(exports[i as int] == artifact.exports@[i as int]@);
            assert(exports.take(i + 1).drop_last() =~= exports.take(i as int));
            assert(exports.take(i + 1).last() == exports[i as int]);
        }
        total = sum(total, text::byte_len(&artifact.exports[i].name));
        total = sum(total, text::byte_len(&artifact.exports[i].signature));
        i = i + 1;
    }
    assert(exports.take(exports.len() as int) =~= exports);
    let ghost upper = base + bytes_of_exports(exports);
    let mut k: usize = 0;
    proof {
        assert(grants.take(0).len() == 0);
    }
    while k < serialized_grants.len()
        invariant
            k <= serialized_grants@.len(),
            grants == text::views(serialized_grants@),
            total == held(upper + bytes_of_all(grants.take(k as int))),
        decreases serialized_grants@.len() - k,
    {
        proof {
            assert(grants[k as int] == serialized_grants@[k as int]@);
            assert(grants.take(k + 1).drop_last() =~= grants.take(k as int));
            assert(grants.take(k + 1).last() == grants[k as int]);
        }
        total = sum(total, text::byte_len(&serialized_grants[k]));
        k = k + 1;
    }
    assert(grants.take(grants.len() as int) =~= grants);
    total
}

/// A skill of a snapshot.
#[derive(Debug, Clone, PartialEq, Eq)]
pub struct SnapshotEntry {
    pub artifact: SkillArtifact,
    pub lineage_key: String,
    pub semantic_key: String,
    pub manifest_bytes: usize,
    pub source_bytes: usize,
    pub values: Vec<u32>,
}

/// The entry that a row becomes.
pub open spec fn entry_of(row: IndexRow, entry: SnapshotEntry) -> bool {
    &&& entry.artifact == row.artifact
    &&& entry.lineage_key@ == match row.metadata.supersedes_id {
        Some(id) => id@,
        None => row.artifact.id@,
    }
    &&& entry.semantic_key@ == semantics(row.artifact)
    &&& entry.manifest_bytes == manifest_bytes(row.artifact, text::views(row.serialized_grants@))
    &&& entry.source_bytes == text::utf8_len(row.artifact.source@)
    &&& entry.values == row.embedding.values
}

fn make_entry(row: IndexRow) -> (r: SnapshotEntry)
    ensures
        entry_of(row, r),
{
    let lineage_key = match row.metadata.supersedes_id {
        Some(id) => id,
        None => row.artifact.id.clone(),
    };
    let semantic_key = semantic_key(&row.artifact);
    let manifest_bytes = manifest_size(&row.artifact, &row.serialized_grants);
    let source_bytes = text::byte_len(&row.artifact.source);
    SnapshotEntry {
        artifact: row.artifact,
        lineage_key,
        semantic_key,
        manifest_bytes,
        source_bytes,
        values: row.embedding.values,
    }
}

/// One complete retrieval generation. An entry that is hidden is never returned.
#[derive(Debug, Clone, PartialEq, Eq)]
pub struct ImmutableSkillIndex {
    pub generation: u64,
    pub model: ModelMetadata,
    pub entries: Vec<SnapshotEntry>,
    pub hidden: Vec<bool>,
}

/// The position of the last entry with an id, before position `n`.
pub open spec fn last_with_id(entries: Seq<SnapshotEntry>, id: Seq<char>, n: int) -> Option<int>
    decreases n,
{
    if n <= 0 || n > entries.len() {
        None
    } else if entries[n - 1].artifact.id@ == id {
        Some(n - 1)
    } else {
        last_with_id(entries, id, n - 1)
    }
}

/// How many entries are visible among the first `n`.
pub open spec fn visible_count(hidden: Seq<bool>, n: nat) -> nat
    decreases n,
{
    if n == 0 {
        0
    } else {
        visible_count(hidden, (n - 1) as nat) + if hidden[n - 1] {
            0nat
        } else {
            1nat
        }
    }
}

impl ImmutableSkillIndex {
    /// Every entry is either visible or hidden.
    pub open spec fn well_formed(self) -> bool {
        self.hidden@.len() == self.entries@.len()
    }

    /// Where an id stands.
    pub open spec fn position(self, id: Seq<char>) -> Option<int> {
        last_with_id(self.entries@, id, self.entries@.len() as int)
    }

    /// An id can be found and is not hidden.
    pub open spec fn offers(self, id: Seq<char>) -> bool {
        self.position(id) is Some && !self.hidden@[self.position(id)->0]
    }

    /// A snapshot of nothing.
    pub fn empty(generation: u64, model: ModelMetadata) -> (r: ImmutableSkillIndex)
        ensures
            r.well_formed(),
            r.generation == generation,
            r.model == model,
            r.entries@.len() == 0,
    {
        ImmutableSkillIndex { generation, model, entries: Vec::new(), hidden: Vec::new() }
    }

    /// Builds a snapshot of rows. Every row must be an active skill whose identity
    /// holds, with a unit vector of the model.
    pub fn build(generation: u64, model: ModelMetadata, rows: Vec<IndexRow>) -> (r: Result<
        ImmutableSkillIndex,
        SkillIndexError,
    >)
        ensures
            match rows_fault_from(rows_by_id(rows@), model, 0) {
                Some(f) => r is Err && r->Err_0@ == f,
                None => {
                    &&& r is Ok
                    &&& r->Ok_0.well_formed()
                    &&& r->Ok_0.generation == generation
                    &&& r->Ok_0.model == model
                    &&& r->Ok_0.entries@.len() == rows_by_id(rows@).len()
                    &&& forall|i: int|
                        0 <= i < rows_by_id(rows@).len() ==> entry_of(
                            rows_by_id(rows@)[i],
                            #[trigger] r->Ok_0.entries@[i],
                        )
                    &&& forall|i: int|
                        0 <= i < r->Ok_0.hidden@.len() ==> !#[trigger] r->Ok_0.hidden@[i]
                },
            },
    {
        let ghost ordered = rows_by_id(rows@);
        let mut rest = sort_rows(rows);
        let mut entries: Vec<SnapshotEntry> = Vec::new();
        let mut hidden: Vec<bool> = Vec::new();
        let ghost mut k: int = 0;
        assert(ordered.skip(0) =~= ordered);
        while rest.len() > 0
            invariant
                0 <= k <= ordered.len(),
                ordered == rows_by_id(rows@),
                rest@ == ordered.skip(k),
                entries@.len() == k,
                hidden@.len() == k,
                forall|i: int|
                    0 <= i < k ==> entry_of(ordered[i], #[trigger] entries@[i]),
                forall|i: int| 0 <= i < k ==> !#[trigger] hidden@[i],
                rows_fault_from(ordered, model, 0) == rows_fault_from(ordered, model, k),
            decreases rest@.len(),
        {
            let row = rest.remove(0);
            proof {
                assert(row == ordered[k]);
                assert(rest@ =~= ordered.skip(k + 1));
            }
            match check_row(&row, &model) {
                Ok(()) => {},
                Err(e) => {
                    return Err(e);
                },
            }
            entries.push(make_entry(row));
            hidden.push(false);
            proof {
                k = k + 1;
            }
        }
        Ok(ImmutableSkillIndex { generation, model, entries, hidden })
    }

    /// Whether the snapshot is large enough for a graph.
    pub fn ann_recommended(&self) -> (r: bool)
        ensures
            r == (self.entries@.len() >= ANN_MIN_ROWS),
    {
        self.entries.len() >= ANN_MIN_ROWS
    }

    /// How many entries are visible.
    pub fn len(&self) -> (r: usize)
        requires
            self.well_formed(),
        ensures
            r == visible_count(self.hidden@, self.hidden@.len()),
    {
        let mut n: usize = 0;
        let mut i: usize = 0;
        while i < self.hidden.len()
            invariant
                i <= self.hidden@.len(),
                n <= i,
                n == visible_count(self.hidden@, i as nat),
            decreases self.hidden@.len() - i,
        {
            if !self.hidden[i] {
                n = n + 1;
            }
            i = i + 1;
        }
        n
    }

    /// Whether nothing is visible.
    pub fn is_empty(&self) -> (r: bool)
        requires
            self.well_formed(),
        ensures
            r == (visible_count(self.hidden@, self.hidden@.len()) == 0),
    {
        self.len() == 0
    }

    fn find(&self, id: &str) -> (r: Option<usize>)
        ensures
            match r {
                Some(i) => i < self.entries@.len() && self.position(id@) == Some(i as int),
                None => self.position(id@) is None,
            },
    {
        let mut n: usize = self.entries.len();
        while n > 0
            invariant
                n <= self.entries@.len(),
                self.position(id@) == last_with_id(self.entries@, id@, n as int),
            decreases n,
        {
            if text::same(&self.entries[n - 1].artifact.id, id) {
                return Some(n - 1);
            }
            n = n - 1;
        }
        None
    }

    /// Whether an id can be found and is not hidden.
    pub fn contains_id(&self, id: &str) -> (r: bool)
        requires
            self.well_formed(),
        ensures
            r == self.offers(id@),
    {
        match self.find(id) {
            Some(i) => !self.hidden[i],
            None => false,
        }
    }

    /// Hides the skills with the given ids, under a new generation. The entries stay
    /// what they are.
    pub fn without_ids(self, generation: u64, hidden: &Vec<String>) -> (r: ImmutableSkillIndex)
        requires
            self.well_formed(),
        ensures
            r.well_formed(),
            r.generation == generation,
            r.model == self.model,
            r.entries == self.entries,
            forall|i: int|
                0 <= i < self.entries@.len() ==> #[trigger] r.hidden@[i] == (self.hidden@[i]
                    || names_position(self, text::views(hidden@), i)),
    {
        let ghost ids = text::views(hidden@);
        let mut index = self;
        index.generation = generation;
        let mut k: usize = 0;
        while k < hidden.len()
            invariant
                k <= hidden@.len(),
                ids == text::views(hidden@),
                index.generation == generation,
                index.model == self.model,
                index.entries == self.entries,
                index.hidden@.len() == self.entries@.len(),
                forall|i: int|
                    0 <= i < self.entries@.len() ==> #[trigger] index.hidden@[i] == (
                    self.hidden@[i] || names_position(self, ids.take(k as int), i)),
            decreases hidden@.len() - k,
        {
            let ghost before = index.hidden@;
            let found = index.find(&hidden[k]);
            proof {
                assert(ids[k as int] == hidden@[k as int]@);
                assert(index.position(ids[k as int]) == self.position(ids[k as int]));
            }
            match found {
                Some(i) => {
                    index.hidden.set(i, true);
                },
                None => {},
            }
            proof {
                assert forall|i: int| 0 <= i < self.entries@.len() implies #[trigger] index.hidden@[i]
                    == (self.hidden@[i] || names_position(self, ids.take(k + 1), i)) by {
                    let shorter = ids.take(k as int);
                    let longer = ids.take(k + 1);
                    assert(before[i] == (self.hidden@[i] || names_position(self, shorter, i)));
                    if names_position(self, shorter, i) {
                        let j = choose|j: int|
                            0 <= j < shorter.len() && self.position(#[trigger] shorter[j]) == Some(
                                i,
                            );
                        assert(longer[j] == shorter[j]);
                    }
                    if names_position(self, longer, i) && !names_position(self, shorter, i) {
                        let j = choose|j: int|
                            0 <= j < longer.len() && self.position(#[trigger] longer[j]) == Some(i);
                        if j < k {
                            assert(shorter[j] == longer[j]);
                        }
                        assert(j == k);
                        assert(longer[j] == ids[k as int]);
                    }
                    if found is Some && found->0 == i {
                        assert(longer[k as int] == ids[k as int]);
                        assert(self.position(longer[k as int]) == Some(i));
                    }
                }
            }
            k = k + 1;
        }
        assert(ids.take(ids.len() as int) =~= ids);
        index
    }
}

/// One of the ids stands at a position.
pub open spec fn names_position(
    index: ImmutableSkillIndex,
    ids: Seq<Seq<char>>,
    i: int,
) -> bool {
    exists|j: int| 0 <= j < ids.len() && index.position(#[trigger] ids[j]) == Some(i)
}

/// What was hidden stays hidden, what is hidden now is no longer offered, and all
/// else stays as it was.
pub proof fn law_hidden_skills_are_not_offered(
    before: ImmutableSkillIndex,
    after: ImmutableSkillIndex,
    ids: Seq<Seq<char>>,
    id: Seq<char>,
)
    requires
        before.well_formed(),
        after.well_formed(),
        after.entries == before.entries,
        forall|i: int|
            0 <= i < before.entries@.len() ==> #[trigger] after.hidden@[i] == (before.hidden@[i]
                || names_position(before, ids, i)),
    ensures
        ids.contains(id) ==> !after.offers(id),
        !before.offers(id) ==> !after.offers(id),
        before.offers(id) && !ids.contains(id) ==> after.offers(id),
{
    lemma_last_with_id(before.entries@, id, before.entries@.len() as int);
    if before.position(id) is Some {
        let i = before.position(id)->0;
        assert(after.hidden@[i] == (before.hidden@[i] || names_position(before, ids, i)));
        if ids.contains(id) {
            let j = ids.index_of(id);
            assert(before.position(ids[j]) == Some(i));
        } else if names_position(before, ids, i) {
            let j = choose|j: int|
                0 <= j < ids.len() && before.position(#[trigger] ids[j]) == Some(i);
            lemma_last_with_id(before.entries@, ids[j], before.entries@.len() as int);
            assert(ids[j] == id);
        }
    }
}

proof fn lemma_last_with_id(entries: Seq<SnapshotEntry>, id: Seq<char>, n: int)
    requires
        n <= entries.len(),
    ensures
        last_with_id(entries, id, n) matches Some(i) ==> 0 <= i < n && entries[i].artifact.id@
            == id,
    decreases n,
{
    if n > 0 && entries[n - 1].artifact.id@ != id {
        lemma_last_with_id(entries, id, n - 1);
    }
}

/// The vector of a query as it was received. `unit` says that it has unit norm.
#[derive(Debug, Clone, Copy, PartialEq, Eq)]
pub struct QueryShape {
    pub width: usize,
    pub finite: bool,
    pub unit: bool,
}

/// What is wrong with a query.
pub open spec fn query_fault(
    query: Seq<char>,
    shape: QueryShape,
    model: ModelMetadata,
) -> Option<IndexFault> {
    if text::utf8_len(query) > MAX_QUERY_BYTES {
        Some(IndexFault::QueryTooLarge)
    } else if shape.width != model.dimensions {
        Some(IndexFault::DimensionMismatch { expected: model.dimensions, actual: shape.width })
    } else if !shape.finite {
        Some(IndexFault::NonFiniteQuery)
    } else if !shape.unit {
        Some(IndexFault::UnnormalizedQuery)
    } else {
        None
    }
}

/// Checks a query against the model of a snapshot.
pub fn validate_query(query_text: &str, shape: QueryShape, model: &ModelMetadata) -> (r: Result<
    (),
    SkillIndexError,
>)
    ensures
        match query_fault(query_text@, shape, *model) {
            None => r is Ok,
            Some(f) => r is Err && r->Err_0@ == f,
        },
{
    if text::byte_len(query_text) > MAX_QUERY_BYTES {
        return Err(SkillIndexError::QueryTooLarge);
    }
    if shape.width != model.dimensions {
        return Err(
            SkillIndexError::DimensionMismatch {
                expected: model.dimensions,
                actual: shape.width,
            },
        );
    }
    if !shape.finite {
        return Err(SkillIndexError::NonFiniteQuery);
    }
    if !shape.unit {
        return Err(SkillIndexError::UnnormalizedQuery);
    }
    Ok(())
}

/// A candidate goes before another: by score, then by position.
pub open spec fn better(a: usize, b: usize, scores: Seq<i64>) -> bool {
    scores[a as int] > scores[b as int] || (scores[a as int] == scores[b as int] && a < b)
}

/// The place in front of the first candidate that `x` is better than.
pub open spec fn rank_point(s: Seq<usize>, x: usize, scores: Seq<i64>, from: int) -> int
    decreases s.len() - from,
{
    if from < 0 || from >= s.len() || better(x, s[from], scores) {
        from
    } else {
        rank_point(s, x, scores, from + 1)
    }
}

/// The candidates, the best first.
pub open spec fn ranked(s: Seq<usize>, scores: Seq<i64>) -> Seq<usize>
    decreases s.len(),
{
    if s.len() == 0 {
        s
    } else {
        let before = ranked(s.drop_last(), scores);
        before.insert(rank_point(before, s.last(), scores, 0), s.last())
    }
}

/// The first items of a sequence, as many as there are up to a limit.
pub open spec fn first<A>(s: Seq<A>, limit: nat) -> Seq<A> {
    if s.len() <= limit {
        s
    } else {
        s.take(limit as int)
    }
}

proof fn lemma_rank_point(s: Seq<usize>, x: usize, scores: Seq<i64>, from: int)
    requires
        0 <= from <= s.len(),
    ensures
        from <= rank_point(s, x, scores, from) <= s.len(),
        forall|j: int|
            from <= j < rank_point(s, x, scores, from) ==> !better(x, #[trigger] s[j], scores),
        rank_point(s, x, scores, from) < s.len() ==> better(
            x,
            s[rank_point(s, x, scores, from)],
            scores,
        ),
    decreases s.len() - from,
{
    if from < s.len() && !better(x, s[from], scores) {
        lemma_rank_point(s, x, scores, from + 1);
    }
}

proof fn lemma_rank_point_of_first(s: Seq<usize>, x: usize, scores: Seq<i64>, k: int, from: int)
    requires
        0 <= from <= k <= s.len(),
    ensures
        rank_point(s.take(k), x, scores, from) == if rank_point(s, x, scores, from) < k {
            rank_point(s, x, scores, from)
        } else {
            k
        },
    decreases k - from,
{
    lemma_rank_point(s, x, scores, from);
    if from < k {
        assert(s.take(k)[from] == s[from]);
        if !better(x, s[from], scores) {
            lemma_rank_point_of_first(s, x, scores, k, from + 1);
        }
    }
}

/// Ranking one more candidate into the best so far gives the best of all.
proof fn lemma_first_of_ranked(s: Seq<usize>, x: usize, scores: Seq<i64>, limit: nat)
    ensures
        first(s.insert(rank_point(s, x, scores, 0), x), limit) == first(
            first(s, limit).insert(rank_point(first(s, limit), x, scores, 0), x),
            limit,
        ),
{
    lemma_rank_point(s, x, scores, 0);
    let at = rank_point(s, x, scores, 0);
    if s.len() > limit {
        let k = limit as int;
        let head = s.take(k);
        lemma_rank_point_of_first(s, x, scores, k, 0);
        if at < k {
            assert(s.insert(at, x).take(k) =~= head.insert(at, x).take(k));
        } else {
            assert(s.insert(at, x).take(k) =~= head);
            assert(head.insert(k, x).take(k) =~= head);
        }
    }
}

/// Ranks candidates and keeps the best, up to a limit.
pub fn rank_best(candidates: &Vec<usize>, scores: &Vec<i64>, limit: usize) -> (r: Vec<usize>)
    requires
        forall|i: int|
            0 <= i < candidates@.len() ==> (#[trigger] candidates@[i]) < scores@.len(),
    ensures
        r@ == first(ranked(candidates@, scores@), limit as nat),
        forall|i: int| 0 <= i < r@.len() ==> (#[trigger] r@[i]) < scores@.len(),
{
    let mut best: Vec<usize> = Vec::new();
    let mut i: usize = 0;
    proof {
        assert(candidates@.take(0).len() == 0);
        assert(best@ =~= ranked(candidates@.take(0), scores@));
    }
    while i < candidates.len()
        invariant
            i <= candidates@.len(),
            best@ == first(ranked(candidates@.take(i as int), scores@), limit as nat),
            best@.len() <= limit,
            forall|j: int|
                0 <= j < candidates@.len() ==> (#[trigger] candidates@[j]) < scores@.len(),
            forall|j: int| 0 <= j < best@.len() ==> (#[trigger] best@[j]) < scores@.len(),
        decreases candidates@.len() - i,
    {
        let x: usize = candidates[i];
        let ghost before = best@;
        proof {
            assert(candidates@.take(i + 1).drop_last() =~= candidates@.take(i as int));
            assert(candidates@.take(i + 1).last() == x);
            lemma_first_of_ranked(
                ranked(candidates@.take(i as int), scores@),
                x,
                scores@,
                limit as nat,
            );
            lemma_rank_point(before, x, scores@, 0);
        }
        let mut at: usize = 0;
        while at < best.len() && !(scores[x] > scores[best[at]] || (scores[x] == scores[best[at]]
            && x < best[at]))
            invariant
                at <= best@.len(),
                best@ == before,
                x < scores@.len(),
                forall|j: int| 0 <= j < best@.len() ==> (#[trigger] best@[j]) < scores@.len(),
                rank_point(before, x, scores@, 0) == rank_point(before, x, scores@, at as int),
            decreases best@.len() - at,
        {
            at = at + 1;
        }
        if at < limit {
            best.insert(at, x);
            assert(best@ == before.insert(at as int, x));
            if best.len() > limit {
                let dropped = best.pop();
                assert(best@ =~= before.insert(at as int, x).take(limit as int));
            }
        } else {
            assert(before.insert(at as int, x).take(limit as int) =~= before);
        }
        assert forall|j: int| 0 <= j < best@.len() implies (#[trigger] best@[j]) < scores@.len() by {
            if at < limit {
                let full = before.insert(at as int, x);
                assert(best@[j] == full[j]);
                if j < at {
                    assert(full[j] == before[j]);
                } else if j > at {
                    assert(full[j] == before[j - 1]);
                }
            }
        }
        i = i + 1;
    }
    assert(candidates@.take(candidates@.len() as int) =~= candidates@);
    best
}

/// Ranking puts the better candidate in front, whatever the order they came in.
pub proof fn law_ranking_is_best_first(s: Seq<usize>, scores: Seq<i64>)
    requires
        s.no_duplicates(),
    ensures
        ranked(s, scores).to_multiset() == s.to_multiset(),
        forall|i: int, j: int|
            0 <= i < j < ranked(s, scores).len() ==> better(
                #[trigger] ranked(s, scores)[i],
                #[trigger] ranked(s, scores)[j],
                scores,
            ),
    decreases s.len(),
{
    if s.len() > 0 {
        let init = s.drop_last();
        let x = s.last();
        let before = ranked(init, scores);
        law_ranking_is_best_first(init, scores);
        lemma_rank_point(before, x, scores, 0);
        let at = rank_point(before, x, scores, 0);
        let after = ranked(s, scores);
        text::lemma_insert_multiset(before, at, x);
        assert(s =~= init.push(x));
        broadcast use vstd::seq_lib::group_to_multiset_ensures;

        assert forall|i: int| 0 <= i < before.len() implies #[trigger] before[i] != x by {
            assert(before.contains(before[i]));
            assert(before.to_multiset().count(before[i]) > 0);
            assert(init.to_multiset().count(before[i]) > 0);
            assert(init.contains(before[i]));
            let k = init.index_of(before[i]);
            assert(s[k] == before[i]);
            assert(s[s.len() - 1] == x);
        }
        assert forall|i: int, j: int| 0 <= i < j < after.len() implies better(
            #[trigger] after[i],
            #[trigger] after[j],
            scores,
        ) by {
            if j == at {
                assert(after[i] == before[i]);
                assert(!better(x, before[i], scores));
            } else if i == at {
                assert(after[j] == before[j - 1]);
                if j - 1 > at {
                    assert(better(before[at], before[j - 1], scores));
                }
            } else {
                let ii = if i < at {
                    i
                } else {
                    i - 1
                };
                let jj = if j < at {
                    j
                } else {
                    j - 1
                };
                assert(after[i] == before[ii]);
                assert(after[j] == before[jj]);
            }
        }
    }
}

/// The visible positions below `n` whose score reaches the floor, in order.
pub open spec fn eligible_positions(hidden: Seq<bool>, reaches: Seq<bool>, n: nat) -> Seq<usize>
    decreases n,
{
    if n == 0 {
        Seq::empty()
    } else {
        let before = eligible_positions(hidden, reaches, (n - 1) as nat);
        if !hidden[n - 1] && reaches[n - 1] {
            before.push((n - 1) as usize)
        } else {
            before
        }
    }
}

proof fn lemma_eligible(hidden: Seq<bool>, reaches: Seq<bool>, n: nat)
    requires
        n <= hidden.len(),
        n <= reaches.len(),
        n <= usize::MAX,
    ensures
        forall|i: int|
            0 <= i < eligible_positions(hidden, reaches, n).len() ==> {
                let p = #[trigger] eligible_positions(hidden, reaches, n)[i];
                p < n && !hidden[p as int] && reaches[p as int]
            },
    decreases n,
{
    if n > 0 {
        lemma_eligible(hidden, reaches, (n - 1) as nat);
        let before = eligible_positions(hidden, reaches, (n - 1) as nat);
        let all = eligible_positions(hidden, reaches, n);
        assert forall|i: int| 0 <= i < all.len() implies {
            let p = #[trigger] all[i];
            p < n && !hidden[p as int] && reaches[p as int]
        } by {
            if i < before.len() {
                assert(all[i] == before[i]);
            }
        }
    }
}

/// The candidates by vector: where there are fewer than the limit, all in their
/// order; otherwise the best, the best first.
pub open spec fn dense_positions(
    hidden: Seq<bool>,
    reaches: Seq<bool>,
    scores: Seq<i64>,
    limit: nat,
) -> Seq<usize> {
    let all = eligible_positions(hidden, reaches, hidden.len());
    if all.len() < limit {
        all
    } else {
        first(ranked(all, scores), limit)
    }
}

impl ImmutableSkillIndex {
    /// Picks the candidates by vector from the scores of all entries. `reaches` says
    /// which scores reach the floor.
    pub fn exact_dense_candidates(
        &self,
        scores: &Vec<i64>,
        reaches: &Vec<bool>,
        limit: usize,
    ) -> (r: Vec<usize>)
        requires
            self.well_formed(),
            scores@.len() == self.entries@.len(),
            reaches@.len() == self.entries@.len(),
        ensures
            r@ == dense_positions(self.hidden@, reaches@, scores@, limit as nat),
            forall|i: int|
                0 <= i < r@.len() ==> (#[trigger] r@[i]) < self.entries@.len(),
    {
        let mut all: Vec<usize> = Vec::new();
        let mut i: usize = 0;
        while i < self.entries.len()
            invariant
                i <= self.entries@.len(),
                self.well_formed(),
                reaches@.len() == self.entries@.len(),
                all@ == eligible_positions(self.hidden@, reaches@, i as nat),
            decreases self.entries@.len() - i,
        {
            if !self.hidden[i] && reaches[i] {
                all.push(i);
            }
            i = i + 1;
        }
        proof {
            lemma_eligible(self.hidden@, reaches@, self.hidden@.len());
        }
        if all.len() < limit {
            return all;
        }
        rank_best(&all, scores, limit)
    }

    /// How many neighbours are asked of the graph for a number of candidates: more
    /// than are wanted, because some may be hidden.
    pub fn ann_candidate_count(&self, limit: usize) -> (r: usize)
        ensures
            r == ({
                let factor: int = if limit <= 10 {
                    4
                } else {
                    2
                };
                let wanted = held((limit * factor) as nat);
                let least = if wanted < ANN_MIN_CANDIDATES {
                    ANN_MIN_CANDIDATES
                } else {
                    wanted
                };
                if least < self.entries@.len() {
                    least as int
                } else {
                    self.entries@.len() as int
                }
            }),
    {
        let factor: usize = if limit <= 10 {
            4
        } else {
            2
        };
        let wanted: usize = if limit > usize::MAX / factor {
            proof {
                if factor == 2 {
                    assert(limit * 2 > usize::MAX);
                }
            }
            usize::MAX
        } else {
            assert(limit * factor <= usize::MAX) by (nonlinear_arith)
                requires
                    limit <= usize::MAX / factor,
                    factor == 2 || factor == 4,
            ;
            limit * factor
        };
        let least: usize = if wanted < ANN_MIN_CANDIDATES {
            ANN_MIN_CANDIDATES
        } else {
            wanted
        };
        if least < self.entries.len() {
            least
        } else {
            self.entries.len()
        }
    }
}

/// A neighbour that the graph returned.
#[derive(Debug, Clone, Copy, PartialEq, Eq)]
pub struct Neighbour {
    pub index: usize,
    pub reaches: bool,
}

/// The positions of the neighbours that are visible and reach the floor.
pub open spec fn visible_neighbours(found: Seq<Neighbour>, hidden: Seq<bool>) -> Seq<usize>
    decreases found.len(),
{
    if found.len() == 0 {
        Seq::empty()
    } else {
        let before = visible_neighbours(found.drop_last(), hidden);
        if found.last().index < hidden.len() && !hidden[found.last().index as int]
            && found.last().reaches {
            before.push(found.last().index)
        } else {
            before
        }
    }
}

/// The candidates by vector among the neighbours: the best, the best first.
pub open spec fn near_positions(
    found: Seq<Neighbour>,
    hidden: Seq<bool>,
    scores: Seq<i64>,
    limit: nat,
) -> Seq<usize> {
    first(ranked(visible_neighbours(found, hidden), scores), limit)
}

impl ImmutableSkillIndex {
    /// Picks the candidates by vector from the neighbours that the graph returned.
    /// `scores` are the scores of the entries, as far as the graph returned them.
    pub fn dense_candidates(
        &self,
        found: &Vec<Neighbour>,
        scores: &Vec<i64>,
        limit: usize,
    ) -> (r: Vec<usize>)
        requires
            self.well_formed(),
            scores@.len() == self.entries@.len(),
        ensures
            r@ == near_positions(found@, self.hidden@, scores@, limit as nat),
            r@ == first(ranked(visible_neighbours(found@, self.hidden@), scores@), limit as nat),
            forall|i: int|
                0 <= i < r@.len() ==> (#[trigger] r@[i]) < self.entries@.len(),
    {
        let mut visible: Vec<usize> = Vec::new();
        let mut i: usize = 0;
        assert(found@.take(0).len() == 0);
        while i < found.len()
            invariant
                i <= found@.len(),
                self.well_formed(),
                visible@ == visible_neighbours(found@.take(i as int), self.hidden@),
                forall|j: int|
                    0 <= j < visible@.len() ==> (#[trigger] visible@[j]) < self.entries@.len(),
            decreases found@.len() - i,
        {
            proof {
                assert(found@.take(i + 1).drop_last() =~= found@.take(i as int));
                assert(found@.take(i + 1).last() == found@[i as int]);
            }
            let at: usize = found[i].index;
            if at < self.hidden.len() && !self.hidden[at] && found[i].reaches {
                visible.push(at);
            }
            i = i + 1;
        }
        assert(found@.take(found@.len() as int) =~= found@);
        rank_best(&visible, scores, limit)
    }
}

/// A row that the text search returned.
#[derive(Debug, Clone, PartialEq, Eq)]
pub struct LexicalHit {
    pub id: String,
    pub reaches: bool,
}

impl ImmutableSkillIndex {
    /// The position of a hit that is known, visible and reaches the floor.
    pub open spec fn hit_position(self, hit: LexicalHit) -> Option<usize> {
        if self.offers(hit.id@) && hit.reaches {
            Some(self.position(hit.id@)->0 as usize)
        } else {
            None
        }
    }

    /// The positions of the hits that count, in order.
    pub open spec fn hit_positions(self, hits: Seq<LexicalHit>) -> Seq<usize>
        decreases hits.len(),
    {
        if hits.len() == 0 {
            Seq::empty()
        } else {
            let before = self.hit_positions(hits.drop_last());
            match self.hit_position(hits.last()) {
                Some(p) => before.push(p),
                None => before,
            }
        }
    }

    /// Picks the candidates by text, in the order of the search.
    pub fn lexical_candidates(&self, hits: &Vec<LexicalHit>) -> (r: Vec<usize>)
        requires
            self.well_formed(),
        ensures
            r@ == self.hit_positions(hits@),
            forall|i: int|
                0 <= i < r@.len() ==> (#[trigger] r@[i]) < self.entries@.len(),
    {
        let mut out: Vec<usize> = Vec::new();
        let mut i: usize = 0;
        assert(hits@.take(0).len() == 0);
        while i < hits.len()
            invariant
                i <= hits@.len(),
                self.well_formed(),
                out@ == self.hit_positions(hits@.take(i as int)),
                forall|j: int|
                    0 <= j < out@.len() ==> (#[trigger] out@[j]) < self.entries@.len(),
            decreases hits@.len() - i,
        {
            proof {
                assert(hits@.take(i + 1).drop_last() =~= hits@.take(i as int));
                assert(hits@.take(i + 1).last() == hits@[i as int]);
            }
            match self.find(&hits[i].id) {
                Some(at) => {
                    if !self.hidden[at] && hits[i].reaches {
                        out.push(at);
                    }
                },
                None => {},
            }
            i = i + 1;
        }
        assert(hits@.take(hits@.len() as int) =~= hits@);
        out
    }
}

/// Where an index stands in a list.
pub open spec fn rank_in(list: Seq<usize>, index: usize, from: int) -> Option<int>
    decreases list.len() - from,
{
    if from < 0 || from >= list.len() {
        None
    } else if list[from] == index {
        Some(from)
    } else {
        rank_in(list, index, from + 1)
    }
}

/// An entry that one of the two searches found, with its rank in each.
#[derive(Debug, Clone, Copy, PartialEq, Eq, Structural)]
pub struct FusedRank {
    pub index: usize,
    pub dense: Option<usize>,
    pub lexical: Option<usize>,
}

pub open spec fn rank_value(rank: Option<int>) -> Option<usize> {
    match rank {
        Some(n) => Some(n as usize),
        None => None,
    }
}

/// The entries below `n` that one of the searches found, in the order of the entries.
pub open spec fn fused(dense: Seq<usize>, lexical: Seq<usize>, n: nat) -> Seq<FusedRank>
    decreases n,
{
    if n == 0 {
        Seq::empty()
    } else {
        let index = (n - 1) as usize;
        let before = fused(dense, lexical, (n - 1) as nat);
        let d = rank_value(rank_in(dense, index, 0));
        let l = rank_value(rank_in(lexical, index, 0));
        if d is None && l is None {
            before
        } else {
            before.push(FusedRank { index, dense: d, lexical: l })
        }
    }
}

fn find_rank(list: &Vec<usize>, index: usize) -> (r: Option<usize>)
    ensures
        r == rank_value(rank_in(list@, index, 0)),
{
    let mut i: usize = 0;
    while i < list.len()
        invariant
            i <= list@.len(),
            rank_in(list@, index, 0) == rank_in(list@, index, i as int),
        decreases list@.len() - i,
    {
        if list[i] == index {
            return Some(i);
        }
        i = i + 1;
    }
    None
}

impl ImmutableSkillIndex {
    /// Brings the candidates of both searches together, each entry once.
    pub fn fuse(&self, dense: &Vec<usize>, lexical: &Vec<usize>) -> (r: Vec<FusedRank>)
        ensures
            r@ == fused(dense@, lexical@, self.entries@.len()),
    {
        let mut out: Vec<FusedRank> = Vec::new();
        let mut i: usize = 0;
        while i < self.entries.len()
            invariant
                i <= self.entries@.len(),
                out@ == fused(dense@, lexical@, i as nat),
            decreases self.entries@.len() - i,
        {
            let d = find_rank(dense, i);
            let l = find_rank(lexical, i);
            if d.is_some() || l.is_some() {
                out.push(FusedRank { index: i, dense: d, lexical: l });
            }
            i = i + 1;
        }
        out
    }
}

/// A choice under way: what was seen, what it costs and what was chosen.
#[verifier::ext_equal]
pub struct Choice {
    pub lineages: Seq<Seq<char>>,
    pub semantics: Seq<Seq<char>>,
    pub manifest_bytes: usize,
    pub source_bytes: usize,
    pub chosen: Seq<usize>,
}

/// Nothing was chosen yet.
pub open spec fn no_choice() -> Choice {
    Choice {
        lineages: Seq::empty(),
        semantics: Seq::empty(),
        manifest_bytes: 0,
        source_bytes: 0,
        chosen: Seq::empty(),
    }
}

/// What looking at one more entry makes of a choice. Of one lineage, and of skills
/// that do the same thing, only the first is looked at; one that exceeds a budget is
/// passed over.
pub open spec fn choose_next(
    choice: Choice,
    entry: SnapshotEntry,
    index: usize,
    policy: RetrievalPolicy,
) -> Choice {
    let lineage = entry.lineage_key@;
    let meaning = entry.semantic_key@;
    if choice.chosen.len() >= policy.max_skills || choice.lineages.contains(lineage) {
        choice
    } else if choice.semantics.contains(meaning) {
        Choice { lineages: choice.lineages.push(lineage), ..choice }
    } else {
        let seen = Choice {
            lineages: choice.lineages.push(lineage),
            semantics: choice.semantics.push(meaning),
            ..choice
        };
        let manifest_bytes = held((choice.manifest_bytes + entry.manifest_bytes) as nat);
        let source_bytes = held((choice.source_bytes + entry.source_bytes) as nat);
        if manifest_bytes > policy.manifest_byte_budget || source_bytes
            > policy.source_byte_budget {
            seen
        } else {
            Choice { manifest_bytes, source_bytes, chosen: choice.chosen.push(index), ..seen }
        }
    }
}

/// What looking at entries in order makes of nothing.
pub open spec fn choice_of(
    entries: Seq<SnapshotEntry>,
    order: Seq<usize>,
    policy: RetrievalPolicy,
) -> Choice
    decreases order.len(),
{
    if order.len() == 0 {
        no_choice()
    } else {
        choose_next(
            choice_of(entries, order.drop_last(), policy),
            entries[order.last() as int],
            order.last(),
            policy,
        )
    }
}

impl ImmutableSkillIndex {
    /// Chooses skills from candidates by their fused scores, the best first, within
    /// the budgets. A chosen skill's rank is its place in the result.
    pub fn fuse_and_budget(
        &self,
        candidates: &Vec<usize>,
        scores: &Vec<i64>,
        policy: &RetrievalPolicy,
    ) -> (r: Vec<usize>)
        requires
            scores@.len() == self.entries@.len(),
            forall|i: int|
                0 <= i < candidates@.len() ==> (#[trigger] candidates@[i]) < self.entries@.len(),
        ensures
            r@ == choice_of(self.entries@, ranked(candidates@, scores@), *policy).chosen,
    {
        let order = rank_best(candidates, scores, candidates.len());
        proof {
            lemma_ranked_len(candidates@, scores@);
        }
        let ghost entries = self.entries@;
        let mut lineages: Vec<String> = Vec::new();
        let mut meanings: Vec<String> = Vec::new();
        let mut manifest_bytes: usize = 0;
        let mut source_bytes: usize = 0;
        let mut chosen: Vec<usize> = Vec::new();
        let mut i: usize = 0;
        proof {
            assert(order@.take(0).len() == 0);
            assert(text::views(lineages@) =~= Seq::empty());
            assert(text::views(meanings@) =~= Seq::empty());
        }
        while i < order.len()
            invariant
                i <= order@.len(),
                entries == self.entries@,
                forall|j: int| 0 <= j < order@.len() ==> (#[trigger] order@[j]) < entries.len(),
                ({
                    let choice = choice_of(entries, order@.take(i as int), *policy);
                    &&& choice.lineages == text::views(lineages@)
                    &&& choice.semantics == text::views(meanings@)
                    &&& choice.manifest_bytes == manifest_bytes
                    &&& choice.source_bytes == source_bytes
                    &&& choice.chosen == chosen@
                }),
            decreases order@.len() - i,
        {
            let at: usize = order[i];
            let entry = &self.entries[at];
            let ghost seen_lineages = text::views(lineages@);
            let ghost seen_meanings = text::views(meanings@);
            proof {
                assert(order@.take(i + 1).drop_last() =~= order@.take(i as int));
                assert(order@.take(i + 1).last() == at);
            }
            if chosen.len() < policy.max_skills && !text::contains_text(
                &lineages,
                &entry.lineage_key,
            ) {
                lineages.push(entry.lineage_key.clone());
                assert(text::views(lineages@) =~= seen_lineages.push(entry.lineage_key@));
                if !text::contains_text(&meanings, &entry.semantic_key) {
                    meanings.push(entry.semantic_key.clone());
                    assert(text::views(meanings@) =~= seen_meanings.push(entry.semantic_key@));
                    let next_manifest = sum(manifest_bytes, entry.manifest_bytes);
                    let next_source = sum(source_bytes, entry.source_bytes);
                    if next_manifest <= policy.manifest_byte_budget && next_source
                        <= policy.source_byte_budget {
                        manifest_bytes = next_manifest;
                        source_bytes = next_source;
                        chosen.push(at);
                    }
                }
            }
            i = i + 1;
        }
        assert(order@.take(order@.len() as int) =~= order@);
        chosen
    }
}

proof fn lemma_ranked_len(s: Seq<usize>, scores: Seq<i64>)
    ensures
        ranked(s, scores).len() == s.len(),
    decreases s.len(),
{
    if s.len() > 0 {
        lemma_ranked_len(s.drop_last(), scores);
        lemma_rank_point(ranked(s.drop_last(), scores), s.last(), scores, 0);
    }
}

/// The chosen skills are no more than asked for, their costs stay within the budgets,
/// and no two are of one lineage or do the same thing.
pub proof fn law_choices_stay_within_budgets(
    entries: Seq<SnapshotEntry>,
    order: Seq<usize>,
    policy: RetrievalPolicy,
)
    ensures
        ({
            let choice = choice_of(entries, order, policy);
            &&& choice.chosen.len() <= policy.max_skills
            &&& choice.manifest_bytes <= policy.manifest_byte_budget
            &&& choice.source_bytes <= policy.source_byte_budget
            &&& forall|i: int|
                0 <= i < choice.chosen.len() ==> {
                    let entry = entries[#[trigger] choice.chosen[i] as int];
                    &&& order.contains(choice.chosen[i])
                    &&& choice.lineages.contains(entry.lineage_key@)
                    &&& choice.semantics.contains(entry.semantic_key@)
                }
            &&& forall|i: int, j: int|
                0 <= i < j < choice.chosen.len() ==> {
                    let a = entries[#[trigger] choice.chosen[i] as int];
                    let b = entries[#[trigger] choice.chosen[j] as int];
                    a.lineage_key@ != b.lineage_key@ && a.semantic_key@ != b.semantic_key@
                }
        }),
    decreases order.len(),
{
    if order.len() > 0 {
        let init = order.drop_last();
        law_choices_stay_within_budgets(entries, init, policy);
        let before = choice_of(entries, init, policy);
        let after = choice_of(entries, order, policy);
        let entry = entries[order.last() as int];
        let lineage = entry.lineage_key@;
        let meaning = entry.semantic_key@;
        assert(order[order.len() - 1] == order.last());
        assert forall|x: Seq<char>| before.lineages.contains(x) implies #[trigger] after.lineages.contains(
            x,
        ) by {
            let k = before.lineages.index_of(x);
            assert(after.lineages[k] == x);
        }
        assert forall|x: Seq<char>| before.semantics.contains(x) implies #[trigger] after.semantics.contains(
            x,
        ) by {
            let k = before.semantics.index_of(x);
            assert(after.semantics[k] == x);
        }
        assert forall|i: int| 0 <= i < before.chosen.len() implies order.contains(
            #[trigger] before.chosen[i],
        ) by {
            let k = init.index_of(before.chosen[i]);
            assert(order[k] == before.chosen[i]);
        }
        if after.chosen.len() > before.chosen.len() {
            let n = before.chosen.len() as int;
            assert(after.lineages[before.lineages.len() as int] == lineage);
            assert(after.semantics[before.semantics.len() as int] == meaning);
            assert(after.chosen[n] == order.last());
            assert forall|i: int| 0 <= i < after.chosen.len() implies {
                let e = entries[#[trigger] after.chosen[i] as int];
                &&& order.contains(after.chosen[i])
                &&& after.lineages.contains(e.lineage_key@)
                &&& after.semantics.contains(e.semantic_key@)
            } by {
                if i < n {
                    assert(after.chosen[i] == before.chosen[i]);
                }
            }
            assert forall|i: int, j: int| 0 <= i < j < after.chosen.len() implies {
                let a = entries[#[trigger] after.chosen[i] as int];
                let b = entries[#[trigger] after.chosen[j] as int];
                a.lineage_key@ != b.lineage_key@ && a.semantic_key@ != b.semantic_key@
            } by {
                assert(after.chosen[i] == before.chosen[i]);
                if j < n {
                    assert(after.chosen[j] == before.chosen[j]);
                }
            }
        }
    }
}

/// Every position is that of a visible entry.
pub open spec fn all_visible(positions: Seq<usize>, hidden: Seq<bool>) -> bool {
    forall|i: int|
        0 <= i < positions.len() ==> (#[trigger] positions[i]) < hidden.len()
            && !hidden[positions[i] as int]
}

proof fn lemma_ranked_visible(s: Seq<usize>, scores: Seq<i64>, hidden: Seq<bool>)
    requires
        all_visible(s, hidden),
    ensures
        all_visible(ranked(s, scores), hidden),
    decreases s.len(),
{
    if s.len() > 0 {
        let init = s.drop_last();
        assert forall|i: int| 0 <= i < init.len() implies (#[trigger] init[i]) < hidden.len()
            && !hidden[init[i] as int] by {
            assert(init[i] == s[i]);
        }
        lemma_ranked_visible(init, scores, hidden);
        let before = ranked(init, scores);
        lemma_rank_point(before, s.last(), scores, 0);
        let at = rank_point(before, s.last(), scores, 0);
        let all = ranked(s, scores);
        assert forall|i: int| 0 <= i < all.len() implies (#[trigger] all[i]) < hidden.len()
            && !hidden[all[i] as int] by {
            if i < at {
                assert(all[i] == before[i]);
            } else if i == at {
                assert(all[i] == s[s.len() - 1]);
            } else {
                assert(all[i] == before[i - 1]);
            }
        }
    }
}

proof fn lemma_neighbours_visible(found: Seq<Neighbour>, hidden: Seq<bool>)
    ensures
        all_visible(visible_neighbours(found, hidden), hidden),
    decreases found.len(),
{
    if found.len() > 0 {
        lemma_neighbours_visible(found.drop_last(), hidden);
    }
}

proof fn lemma_hits_visible(index: ImmutableSkillIndex, hits: Seq<LexicalHit>)
    requires
        index.well_formed(),
    ensures
        all_visible(index.hit_positions(hits), index.hidden@),
    decreases hits.len(),
{
    if hits.len() > 0 {
        assert(index.entries.len() == index.entries@.len());
        lemma_hits_visible(index, hits.drop_last());
        lemma_last_with_id(index.entries@, hits.last().id@, index.entries@.len() as int);
    }
}

/// The positions that a list of ranks speaks of.
pub open spec fn fused_positions(ranks: Seq<FusedRank>) -> Seq<usize> {
    ranks.map_values(|r: FusedRank| r.index)
}

proof fn lemma_rank_in(list: Seq<usize>, index: usize, from: int)
    requires
        0 <= from,
    ensures
        rank_in(list, index, from) matches Some(i) ==> from <= i < list.len() && list[i] == index,
    decreases list.len() - from,
{
    if from < list.len() && list[from] != index {
        lemma_rank_in(list, index, from + 1);
    }
}

proof fn lemma_fused_visible(
    dense: Seq<usize>,
    lexical: Seq<usize>,
    n: nat,
    hidden: Seq<bool>,
)
    requires
        all_visible(dense, hidden),
        all_visible(lexical, hidden),
        n <= usize::MAX,
    ensures
        all_visible(fused_positions(fused(dense, lexical, n)), hidden),
    decreases n,
{
    if n > 0 {
        lemma_fused_visible(dense, lexical, (n - 1) as nat, hidden);
        let before = fused(dense, lexical, (n - 1) as nat);
        let all = fused(dense, lexical, n);
        let index = (n - 1) as usize;
        lemma_rank_in(dense, index, 0);
        lemma_rank_in(lexical, index, 0);
        assert forall|i: int| 0 <= i < fused_positions(all).len() implies (
        #[trigger] fused_positions(all)[i]) < hidden.len() && !hidden[fused_positions(
            all,
        )[i] as int] by {
            if i < before.len() {
                assert(fused_positions(all)[i] == fused_positions(before)[i]);
            }
        }
    }
}

/// A hidden skill is never returned: not as a candidate of the exact scan, of the graph
/// or of the text search, and not by the choice among visible candidates.
pub proof fn law_searches_return_only_visible_skills(
    index: ImmutableSkillIndex,
    reaches: Seq<bool>,
    scores: Seq<i64>,
    limit: nat,
    found: Seq<Neighbour>,
    hits: Seq<LexicalHit>,
    dense: Seq<usize>,
    lexical: Seq<usize>,
    policy: RetrievalPolicy,
)
    requires
        index.well_formed(),
        reaches.len() == index.entries@.len(),
        all_visible(dense, index.hidden@),
        all_visible(lexical, index.hidden@),
    ensures
        all_visible(dense_positions(index.hidden@, reaches, scores, limit), index.hidden@),
        all_visible(
            first(ranked(visible_neighbours(found, index.hidden@), scores), limit),
            index.hidden@,
        ),
        all_visible(index.hit_positions(hits), index.hidden@),
        all_visible(
            choice_of(
                index.entries@,
                ranked(
                    fused_positions(fused(dense, lexical, index.entries@.len())),
                    scores,
                ),
                policy,
            ).chosen,
            index.hidden@,
        ),
{
    let hidden = index.hidden@;
    assert(index.entries.len() == index.entries@.len());
    let eligible = eligible_positions(hidden, reaches, hidden.len());
    lemma_eligible(hidden, reaches, hidden.len());
    lemma_ranked_visible(eligible, scores, hidden);
    lemma_neighbours_visible(found, hidden);
    lemma_ranked_visible(visible_neighbours(found, hidden), scores, hidden);
    lemma_hits_visible(index, hits);
    let candidates = fused_positions(fused(dense, lexical, index.entries@.len()));
    lemma_fused_visible(dense, lexical, index.entries@.len(), hidden);
    lemma_ranked_visible(candidates, scores, hidden);
    let order = ranked(candidates, scores);
    law_choices_stay_within_budgets(index.entries@, order, policy);
    let chosen = choice_of(index.entries@, order, policy).chosen;
    assert forall|i: int| 0 <= i < chosen.len() implies (#[trigger] chosen[i]) < hidden.len()
        && !hidden[chosen[i] as int] by {
        assert(order.contains(chosen[i]));
        let k = order.index_of(chosen[i]);
        assert(order[k] == chosen[i]);
    }
}

/// A hit is of a skill that stands in the snapshot and is visible, and it reaches the
/// floor.
pub open spec fn hit_counts(index: ImmutableSkillIndex, hit: LexicalHit) -> bool {
    hit.reaches && exists|p: int|
        0 <= p < index.entries@.len() && (#[trigger] index.entries@[p]).artifact.id@ == hit.id@
            && !index.hidden@[p]
}

/// Positions are those of some of the hits, in the order of the hits.
pub open spec fn follows_hits(
    index: ImmutableSkillIndex,
    hits: Seq<LexicalHit>,
    positions: Seq<usize>,
    kept: Seq<int>,
) -> bool {
    &&& kept.len() == positions.len()
    &&& forall|a: int, b: int| 0 <= a < b < kept.len() ==> #[trigger] kept[a] < #[trigger] kept[b]
    &&& forall|a: int|
        0 <= a < kept.len() ==> 0 <= #[trigger] kept[a] < hits.len() && positions[a]
            < index.entries@.len() && index.entries@[positions[a] as int].artifact.id@
            == hits[kept[a]].id@
}

proof fn lemma_position_of_hit(index: ImmutableSkillIndex, hit: LexicalHit)
    requires
        index.well_formed(),
        forall|i: int, j: int|
            0 <= i < j < index.entries@.len() ==> (#[trigger] index.entries@[i]).artifact.id@ != (
            #[trigger] index.entries@[j]).artifact.id@,
    ensures
        hit_counts(index, hit) <==> index.hit_position(hit) is Some,
        index.hit_position(hit) matches Some(p) ==> p < index.entries@.len()
            && index.entries@[p as int].artifact.id@ == hit.id@ && !index.hidden@[p as int],
{
    let n = index.entries@.len() as int;
    assert(index.entries.len() == n);
    lemma_last_with_id(index.entries@, hit.id@, n);
    if hit_counts(index, hit) {
        let p = choose|p: int|
            0 <= p < n && (#[trigger] index.entries@[p]).artifact.id@ == hit.id@
                && !index.hidden@[p];
        lemma_last_is_found(index.entries@, hit.id@, n, p);
        let q = index.position(hit.id@)->0;
        if p < q {
            assert(index.entries@[p].artifact.id@ != index.entries@[q].artifact.id@);
        }
    }
}

proof fn lemma_last_is_found(entries: Seq<SnapshotEntry>, id: Seq<char>, n: int, p: int)
    requires
        0 <= p < n <= entries.len(),
        entries[p].artifact.id@ == id,
    ensures
        last_with_id(entries, id, n) matches Some(q) && p <= q < n,
    decreases n,
{
    if entries[n - 1].artifact.id@ != id {
        lemma_last_is_found(entries, id, n - 1, p);
    }
}

/// The text search decides the order: its hits that stand in the snapshot, are visible
/// and reach the floor become candidates, all of them and no others, each where its hit
/// stands among the hits.
pub proof fn law_text_candidates_keep_the_order_of_the_search(
    index: ImmutableSkillIndex,
    hits: Seq<LexicalHit>,
)
    requires
        index.well_formed(),
        forall|i: int, j: int|
            0 <= i < j < index.entries@.len() ==> (#[trigger] index.entries@[i]).artifact.id@ != (
            #[trigger] index.entries@[j]).artifact.id@,
    ensures
        exists|kept: Seq<int>|
            #[trigger] follows_hits(index, hits, index.hit_positions(hits), kept) && forall|i: int|
                0 <= i < hits.len() ==> (kept.contains(i) <==> hit_counts(index, #[trigger] hits[i])),
        forall|i: int, j: int|
            0 <= i < j < hits.len() && hit_counts(index, #[trigger] hits[i]) && hit_counts(
                index,
                #[trigger] hits[j],
            ) ==> exists|a: int, b: int|
                0 <= a < b < index.hit_positions(hits).len()
                    && index.entries@[#[trigger] index.hit_positions(hits)[a] as int].artifact.id@
                    == hits[i].id@
                    && index.entries@[#[trigger] index.hit_positions(hits)[b] as int].artifact.id@
                    == hits[j].id@,
    decreases hits.len(),
{
    let positions = index.hit_positions(hits);
    if hits.len() == 0 {
        let none = Seq::<int>::empty();
        assert(follows_hits(index, hits, positions, none));
    } else {
        let init = hits.drop_last();
        let last = hits.last();
        law_text_candidates_keep_the_order_of_the_search(index, init);
        let before = index.hit_positions(init);
        let kept = choose|kept: Seq<int>|
            #[trigger] follows_hits(index, init, before, kept) && forall|i: int|
                0 <= i < init.len() ==> (kept.contains(i) <==> hit_counts(index, #[trigger] init[i]));
        lemma_position_of_hit(index, last);
        let n = hits.len() - 1;
        let more = if index.hit_position(last) is Some {
            kept.push(n)
        } else {
            kept
        };
        assert(follows_hits(index, hits, positions, more)) by {
            assert forall|a: int| 0 <= a < more.len() implies 0 <= #[trigger] more[a] < hits.len()
                && positions[a] < index.entries@.len()
                && index.entries@[positions[a] as int].artifact.id@ == hits[more[a]].id@ by {
                if a < kept.len() {
                    assert(more[a] == kept[a]);
                    assert(init[kept[a]] == hits[kept[a]]);
                }
            }
            assert forall|a: int, b: int| 0 <= a < b < more.len() implies #[trigger] more[a]
                < #[trigger] more[b] by {
                assert(more[a] == kept[a]);
                if b < kept.len() {
                    assert(more[b] == kept[b]);
                }
            }
        }
        assert forall|i: int| 0 <= i < hits.len() implies (more.contains(i) <==> hit_counts(
            index,
            #[trigger] hits[i],
        )) by {
            if i < n {
                assert(init[i] == hits[i]);
                if kept.contains(i) {
                    assert(more[kept.index_of(i)] == i);
                }
                if more.contains(i) {
                    let a = more.index_of(i);
                    assert(kept[a] == i);
                }
            } else {
                if more.contains(n) {
                    let a = more.index_of(n);
                    if a < kept.len() {
                        assert(kept[a] == n);
                    }
                }
                if index.hit_position(last) is Some {
                    assert(more[kept.len() as int] == n);
                }
            }
        }
        assert forall|i: int, j: int|
            0 <= i < j < hits.len() && hit_counts(index, #[trigger] hits[i]) && hit_counts(
                index,
                #[trigger] hits[j],
            ) implies exists|a: int, b: int|
            0 <= a < b < positions.len() && index.entries@[#[trigger] positions[a] as int].artifact.id@
                == hits[i].id@ && index.entries@[#[trigger] positions[b] as int].artifact.id@
                == hits[j].id@ by {
            assert(more.contains(i) && more.contains(j));
            let a = more.index_of(i);
            let b = more.index_of(j);
            if b < a {
                assert(more[b] < more[a]);
            }
            assert(a < b);
            assert(more[a] == i && more[b] == j);
            assert(index.entries@[positions[a] as int].artifact.id@ == hits[i].id@);
            assert(index.entries@[positions[b] as int].artifact.id@ == hits[j].id@);
        }
    }
}

/// Positions are the best of those that are wanted: each at most once, no more than the
/// limit, and whatever is left out goes behind all of them.
pub open spec fn are_the_best(
    positions: Seq<usize>,
    wanted: spec_fn(usize) -> bool,
    scores: Seq<i64>,
    limit: nat,
) -> bool {
    &&& positions.no_duplicates()
    &&& positions.len() <= limit
    &&& forall|i: int| 0 <= i < positions.len() ==> wanted(#[trigger] positions[i])
    &&& forall|p: usize| #[trigger]
        wanted(p) && !positions.contains(p) ==> positions.len() == limit && forall|i: int|
            0 <= i < positions.len() ==> scores[p as int] < scores[#[trigger] positions[i] as int]
                || (scores[p as int] == scores[positions[i] as int] && p > positions[i])
}

/// The better stand first: by score, and with equal scores by position.
pub open spec fn stand_best_first(positions: Seq<usize>, scores: Seq<i64>) -> bool {
    forall|i: int, j: int|
        0 <= i < j < positions.len() ==> scores[#[trigger] positions[i] as int]
            > scores[#[trigger] positions[j] as int] || (scores[positions[i] as int]
            == scores[positions[j] as int] && positions[i] < positions[j])
}

proof fn lemma_first_of_ranked_are_best(
    all: Seq<usize>,
    wanted: spec_fn(usize) -> bool,
    scores: Seq<i64>,
    limit: nat,
)
    requires
        all.no_duplicates(),
        forall|p: usize| #[trigger] wanted(p) <==> all.contains(p),
    ensures
        are_the_best(first(ranked(all, scores), limit), wanted, scores, limit),
        stand_best_first(first(ranked(all, scores), limit), scores),
        limit >= all.len() ==> first(ranked(all, scores), limit).len() == all.len(),
{
    broadcast use vstd::seq_lib::group_to_multiset_ensures;

    law_ranking_is_best_first(all, scores);
    lemma_ranked_len(all, scores);
    let order = ranked(all, scores);
    let best = first(order, limit);
    assert forall|p: usize| all.contains(p) <==> #[trigger] order.contains(p) by {
        assert(all.to_multiset().count(p) > 0 <==> all.contains(p));
        assert(order.to_multiset().count(p) > 0 <==> order.contains(p));
    }
    assert forall|i: int, j: int| 0 <= i < j < best.len() implies scores[#[trigger] best[i] as int]
        > scores[#[trigger] best[j] as int] || (scores[best[i] as int] == scores[best[j] as int]
        && best[i] < best[j]) by {
        assert(best[i] == order[i] && best[j] == order[j]);
        assert(better(order[i], order[j], scores));
    }
    assert(best.no_duplicates());
    assert forall|i: int| 0 <= i < best.len() implies wanted(#[trigger] best[i]) by {
        assert(best[i] == order[i]);
        assert(order.contains(order[i]));
    }
    assert forall|p: usize| #[trigger] wanted(p) && !best.contains(p) implies best.len() == limit
        && forall|i: int|
        0 <= i < best.len() ==> scores[p as int] < scores[#[trigger] best[i] as int] || (
        scores[p as int] == scores[best[i] as int] && p > best[i]) by {
        let k = order.index_of(p);
        assert(order.contains(p));
        if k < best.len() {
            assert(best[k] == p);
        }
        assert forall|i: int| 0 <= i < best.len() implies scores[p as int]
            < scores[#[trigger] best[i] as int] || (scores[p as int] == scores[best[i] as int] && p
            > best[i]) by {
            assert(best[i] == order[i]);
            assert(better(order[i], order[k], scores));
        }
    }
}

proof fn lemma_eligible_exactly(hidden: Seq<bool>, reaches: Seq<bool>, n: nat)
    requires
        n <= hidden.len(),
        n <= reaches.len(),
        n <= usize::MAX,
    ensures
        forall|p: usize|
            #[trigger] eligible_positions(hidden, reaches, n).contains(p) <==> p < n
                && !hidden[p as int] && reaches[p as int],
        forall|i: int, j: int|
            0 <= i < j < eligible_positions(hidden, reaches, n).len() ==> #[trigger]
            eligible_positions(hidden, reaches, n)[i] < #[trigger] eligible_positions(
                hidden,
                reaches,
                n,
            )[j],
    decreases n,
{
    if n > 0 {
        lemma_eligible_exactly(hidden, reaches, (n - 1) as nat);
        let before = eligible_positions(hidden, reaches, (n - 1) as nat);
        let all = eligible_positions(hidden, reaches, n);
        assert forall|p: usize| #[trigger] all.contains(p) <==> p < n && !hidden[p as int]
            && reaches[p as int] by {
            if before.contains(p) {
                assert(all[before.index_of(p)] == p);
            }
            if all.contains(p) {
                let i = all.index_of(p);
                if i < before.len() {
                    assert(before[i] == p);
                    assert(before.contains(p));
                }
            }
            if p == n - 1 && !hidden[p as int] && reaches[p as int] {
                assert(all[before.len() as int] == p);
            }
        }
        assert forall|i: int, j: int| 0 <= i < j < all.len() implies #[trigger] all[i]
            < #[trigger] all[j] by {
            assert(all[i] == before[i]);
            assert(before.contains(before[i]));
            if j < before.len() {
                assert(all[j] == before[j]);
            }
        }
    } else {
        let none = eligible_positions(hidden, reaches, 0);
        assert(none.len() == 0);
    }
}

/// The vector scan takes the visible skills whose score reaches the floor: as many of the
/// best as the limit allows. A full list stands best first, a shorter one in the order of
/// the snapshot.
pub proof fn law_vector_candidates_are_the_best(
    hidden: Seq<bool>,
    reaches: Seq<bool>,
    scores: Seq<i64>,
    limit: nat,
)
    requires
        reaches.len() == hidden.len(),
        scores.len() == hidden.len(),
        hidden.len() <= usize::MAX,
    ensures
        ({
            let r = dense_positions(hidden, reaches, scores, limit);
            &&& are_the_best(
                r,
                |p: usize| p < hidden.len() && !hidden[p as int] && reaches[p as int],
                scores,
                limit,
            )
            &&& r.len() == limit ==> stand_best_first(r, scores)
            &&& r.len() < limit ==> forall|i: int, j: int|
                0 <= i < j < r.len() ==> #[trigger] r[i] < #[trigger] r[j]
        }),
{
    let n = hidden.len();
    let all = eligible_positions(hidden, reaches, n);
    lemma_eligible_exactly(hidden, reaches, n);
    assert(all.no_duplicates());
    let wanted = |p: usize| p < n && !hidden[p as int] && reaches[p as int];
    lemma_first_of_ranked_are_best(all, wanted, scores, limit);
    lemma_ranked_len(all, scores);
    if all.len() < limit {
        assert forall|i: int| 0 <= i < all.len() implies wanted(#[trigger] all[i]) by {
            assert(all.contains(all[i]));
        }
    }
}

proof fn lemma_visible_neighbours_exactly(found: Seq<Neighbour>, hidden: Seq<bool>)
    requires
        forall|i: int, j: int|
            0 <= i < j < found.len() ==> (#[trigger] found[i]).index != (#[trigger] found[j]).index,
    ensures
        visible_neighbours(found, hidden).no_duplicates(),
        forall|p: usize|
            #[trigger] visible_neighbours(found, hidden).contains(p) <==> p < hidden.len()
                && !hidden[p as int] && exists|i: int|
                0 <= i < found.len() && (#[trigger] found[i]).index == p && found[i].reaches,
    decreases found.len(),
{
    if found.len() > 0 {
        let init = found.drop_last();
        let last = found.last();
        lemma_visible_neighbours_exactly(init, hidden);
        let before = visible_neighbours(init, hidden);
        let all = visible_neighbours(found, hidden);
        assert(found[found.len() - 1] == last);
        assert forall|p: usize| #[trigger] all.contains(p) <==> p < hidden.len()
            && !hidden[p as int] && exists|i: int|
            0 <= i < found.len() && (#[trigger] found[i]).index == p && found[i].reaches by {
            if before.contains(p) {
                assert(all[before.index_of(p)] == p);
                let i = choose|i: int|
                    0 <= i < init.len() && (#[trigger] init[i]).index == p && init[i].reaches;
                assert(found[i] == init[i]);
            }
            if all.contains(p) && !before.contains(p) {
                let k = all.index_of(p);
                if k < before.len() {
                    assert(before[k] == p);
                }
            }
            if p < hidden.len() && !hidden[p as int] && exists|i: int|
                0 <= i < found.len() && (#[trigger] found[i]).index == p && found[i].reaches {
                let i = choose|i: int|
                    0 <= i < found.len() && (#[trigger] found[i]).index == p && found[i].reaches;
                if i < init.len() {
                    assert(init[i] == found[i]);
                    assert(before.contains(p));
                } else {
                    assert(all[before.len() as int] == p);
                }
            }
        }
        if all.len() > before.len() {
            if before.contains(last.index) {
                let i = choose|i: int|
                    0 <= i < init.len() && (#[trigger] init[i]).index == last.index
                        && init[i].reaches;
                assert(found[i] == init[i]);
            }
            assert forall|i: int, j: int| 0 <= i < j < all.len() implies all[i] != all[j] by {
                assert(all[i] == before[i]);
                assert(before.contains(before[i]));
                if j < before.len() {
                    assert(all[j] == before[j]);
                }
            }
        }
    }
}

/// Of the neighbours that the graph returned, the visible ones whose score reaches the
/// floor become candidates: as many of the best as the limit allows, the best first.
pub proof fn law_neighbours_are_taken_best_first(
    found: Seq<Neighbour>,
    hidden: Seq<bool>,
    scores: Seq<i64>,
    limit: nat,
)
    requires
        forall|i: int, j: int|
            0 <= i < j < found.len() ==> (#[trigger] found[i]).index != (#[trigger] found[j]).index,
    ensures
        are_the_best(
            near_positions(found, hidden, scores, limit),
            |p: usize|
                p < hidden.len() && !hidden[p as int] && exists|i: int|
                    0 <= i < found.len() && (#[trigger] found[i]).index == p && found[i].reaches,
            scores,
            limit,
        ),
        stand_best_first(near_positions(found, hidden, scores, limit), scores),
{
    let wanted = |p: usize|
        p < hidden.len() && !hidden[p as int] && exists|i: int|
            0 <= i < found.len() && (#[trigger] found[i]).index == p && found[i].reaches;
    lemma_visible_neighbours_exactly(found, hidden);
    lemma_first_of_ranked_are_best(visible_neighbours(found, hidden), wanted, scores, limit);
}

proof fn lemma_rank_is_first(list: Seq<usize>, index: usize, from: int)
    requires
        0 <= from <= list.len(),
        forall|j: int| 0 <= j < from ==> #[trigger] list[j] != index,
    ensures
        match rank_in(list, index, from) {
            None => !list.contains(index),
            Some(i) => 0 <= i < list.len() && list[i] == index && forall|j: int|
                0 <= j < i ==> #[trigger] list[j] != index,
        },
    decreases list.len() - from,
{
    if from < list.len() && list[from] != index {
        lemma_rank_is_first(list, index, from + 1);
    }
}

/// A rank is where an entry first stands in a list; there is none where it does not.
pub open spec fn is_rank(list: Seq<usize>, index: usize, rank: Option<usize>) -> bool {
    match rank {
        None => !list.contains(index),
        Some(i) => i < list.len() && list[i as int] == index && forall|j: int|
            0 <= j < i ==> #[trigger] list[j] != index,
    }
}

/// Fusion looks at each entry that a search found once, with the place that it has in
/// each of the two lists.
pub proof fn law_fusion_ranks_every_candidate_once(dense: Seq<usize>, lexical: Seq<usize>, n: nat)
    requires
        n <= usize::MAX,
        dense.len() <= usize::MAX,
        lexical.len() <= usize::MAX,
    ensures
        ({
            let r = fused(dense, lexical, n);
            &&& forall|i: int|
                0 <= i < r.len() ==> {
                    let rank = #[trigger] r[i];
                    &&& rank.index < n
                    &&& is_rank(dense, rank.index, rank.dense)
                    &&& is_rank(lexical, rank.index, rank.lexical)
                    &&& rank.dense is Some || rank.lexical is Some
                }
            &&& forall|i: int, j: int|
                0 <= i < j < r.len() ==> (#[trigger] r[i]).index < (#[trigger] r[j]).index
            &&& forall|p: usize|
                p < n && (dense.contains(p) || #[trigger] lexical.contains(p)) ==> exists|i: int|
                    0 <= i < r.len() && (#[trigger] r[i]).index == p
            &&& forall|p: usize|
                p < n && (#[trigger] dense.contains(p) || lexical.contains(p)) ==> exists|i: int|
                    0 <= i < r.len() && (#[trigger] r[i]).index == p
        }),
    decreases n,
{
    if n > 0 {
        law_fusion_ranks_every_candidate_once(dense, lexical, (n - 1) as nat);
        let before = fused(dense, lexical, (n - 1) as nat);
        let all = fused(dense, lexical, n);
        let index = (n - 1) as usize;
        lemma_rank_is_first(dense, index, 0);
        lemma_rank_is_first(lexical, index, 0);
        assert forall|i: int| 0 <= i < all.len() implies {
            let rank = #[trigger] all[i];
            &&& rank.index < n
            &&& is_rank(dense, rank.index, rank.dense)
            &&& is_rank(lexical, rank.index, rank.lexical)
            &&& rank.dense is Some || rank.lexical is Some
        } by {
            if i < before.len() {
                assert(all[i] == before[i]);
            }
        }
        assert forall|p: usize| p < n && (dense.contains(p) || lexical.contains(p)) implies exists|
            i: int,
        |
            0 <= i < all.len() && (#[trigger] all[i]).index == p by {
            if p < n - 1 {
                let i = choose|i: int| 0 <= i < before.len() && (#[trigger] before[i]).index == p;
                assert(all[i] == before[i]);
            } else {
                assert(all[before.len() as int].index == p);
            }
        }
        assert forall|i: int, j: int| 0 <= i < j < all.len() implies (#[trigger] all[i]).index < (
        #[trigger] all[j]).index by {
            assert(all[i] == before[i]);
            if j < before.len() {
                assert(all[j] == before[j]);
            }
        }
    }
}

/// The manifest bytes of chosen entries together.
pub open spec fn manifests_of(entries: Seq<SnapshotEntry>, chosen: Seq<usize>) -> nat
    decreases chosen.len(),
{
    if chosen.len() == 0 {
        0
    } else {
        manifests_of(entries, chosen.drop_last()) + entries[chosen.last() as int].manifest_bytes
            as nat
    }
}

/// The source bytes of chosen entries together.
pub open spec fn sources_of(entries: Seq<SnapshotEntry>, chosen: Seq<usize>) -> nat
    decreases chosen.len(),
{
    if chosen.len() == 0 {
        0
    } else {
        sources_of(entries, chosen.drop_last()) + entries[chosen.last() as int].source_bytes as nat
    }
}

/// Nothing before a place is of the lineage of the entry there.
pub open spec fn first_of_lineage(
    entries: Seq<SnapshotEntry>,
    order: Seq<usize>,
    i: int,
) -> bool {
    forall|j: int|
        0 <= j < i ==> entries[#[trigger] order[j] as int].lineage_key@
            != entries[order[i] as int].lineage_key@
}

/// One of the entries looked at is of a lineage.
pub open spec fn lineage_seen(
    entries: Seq<SnapshotEntry>,
    order: Seq<usize>,
    lineage: Seq<char>,
) -> bool {
    exists|i: int|
        0 <= i < order.len() && entries[#[trigger] order[i] as int].lineage_key@ == lineage
}

/// One of the entries looked at that was the first of its lineage does a thing.
pub open spec fn meaning_seen(
    entries: Seq<SnapshotEntry>,
    order: Seq<usize>,
    meaning: Seq<char>,
) -> bool {
    exists|i: int|
        0 <= i < order.len() && #[trigger] first_of_lineage(entries, order, i)
            && entries[order[i] as int].semantic_key@ == meaning
}

proof fn lemma_seen_grows(
    entries: Seq<SnapshotEntry>,
    order: Seq<usize>,
    next: usize,
    x: Seq<char>,
)
    ensures
        ({
            let more = order.push(next);
            let entry = entries[next as int];
            &&& lineage_seen(entries, more, x) <==> lineage_seen(entries, order, x)
                || entry.lineage_key@ == x
            &&& meaning_seen(entries, more, x) <==> meaning_seen(entries, order, x) || (
            entry.semantic_key@ == x && !lineage_seen(entries, order, entry.lineage_key@))
        }),
{
    let more = order.push(next);
    let entry = entries[next as int];
    let n = order.len() as int;
    assert(more[n] == next);
    if lineage_seen(entries, order, x) {
        let i = choose|i: int|
            0 <= i < order.len() && entries[#[trigger] order[i] as int].lineage_key@ == x;
        assert(more[i] == order[i]);
    }
    if lineage_seen(entries, more, x) {
        let i = choose|i: int|
            0 <= i < more.len() && entries[#[trigger] more[i] as int].lineage_key@ == x;
        if i < n {
            assert(order[i] == more[i]);
        }
    }
    assert forall|i: int| 0 <= i < n implies #[trigger] first_of_lineage(entries, more, i)
        == first_of_lineage(entries, order, i) by {
        assert(more[i] == order[i]);
        if first_of_lineage(entries, order, i) {
            assert forall|j: int| 0 <= j < i implies entries[#[trigger] more[
                j] as int].lineage_key@ != entries[more[i] as int].lineage_key@ by {
                assert(order[j] == more[j]);
            }
        }
        if first_of_lineage(entries, more, i) {
            assert forall|j: int| 0 <= j < i implies entries[#[trigger] order[
                j] as int].lineage_key@ != entries[order[i] as int].lineage_key@ by {
                assert(more[j] == order[j]);
            }
        }
    }
    assert(first_of_lineage(entries, more, n) == !lineage_seen(
        entries,
        order,
        entry.lineage_key@,
    )) by {
        if first_of_lineage(entries, more, n) {
            assert forall|j: int| 0 <= j < n implies entries[#[trigger] order[
                j] as int].lineage_key@ != entry.lineage_key@ by {
                assert(more[j] == order[j]);
            }
        }
        if !lineage_seen(entries, order, entry.lineage_key@) {
            assert forall|j: int| 0 <= j < n implies entries[#[trigger] more[
                j] as int].lineage_key@ != entries[more[n] as int].lineage_key@ by {
                assert(order[j] == more[j]);
            }
        }
    }
    if meaning_seen(entries, order, x) {
        let i = choose|i: int|
            0 <= i < order.len() && #[trigger] first_of_lineage(entries, order, i)
                && entries[order[i] as int].semantic_key@ == x;
        assert(more[i] == order[i]);
        assert(first_of_lineage(entries, more, i));
    }
    if meaning_seen(entries, more, x) {
        let i = choose|i: int|
            0 <= i < more.len() && #[trigger] first_of_lineage(entries, more, i)
                && entries[more[i] as int].semantic_key@ == x;
        if i < n {
            assert(more[i] == order[i]);
            assert(first_of_lineage(entries, order, i));
        }
    }
}

proof fn lemma_pushed(s: Seq<Seq<char>>, y: Seq<char>, x: Seq<char>)
    ensures
        s.push(y).contains(x) <==> s.contains(x) || x == y,
{
    if s.contains(x) {
        assert(s.push(y)[s.index_of(x)] == x);
    }
    if x == y {
        assert(s.push(y)[s.len() as int] == x);
    }
    if s.push(y).contains(x) {
        let i = s.push(y).index_of(x);
        if i < s.len() {
            assert(s[i] == x);
        }
    }
}

proof fn lemma_choice_holds(
    entries: Seq<SnapshotEntry>,
    order: Seq<usize>,
    policy: RetrievalPolicy,
    x: Seq<char>,
)
    requires
        policy.manifest_byte_budget < usize::MAX,
        policy.source_byte_budget < usize::MAX,
    ensures
        ({
            let choice = choice_of(entries, order, policy);
            &&& choice.manifest_bytes == manifests_of(entries, choice.chosen)
            &&& choice.source_bytes == sources_of(entries, choice.chosen)
            &&& choice.manifest_bytes <= policy.manifest_byte_budget
            &&& choice.source_bytes <= policy.source_byte_budget
            &&& choice.chosen.len() <= policy.max_skills
            &&& choice.chosen.len() < policy.max_skills ==> {
                &&& choice.lineages.contains(x) <==> lineage_seen(entries, order, x)
                &&& choice.semantics.contains(x) <==> meaning_seen(entries, order, x)
            }
        }),
    decreases order.len(),
{
    if order.len() > 0 {
        let init = order.drop_last();
        let entry = entries[order.last() as int];
        let lineage = entry.lineage_key@;
        let meaning = entry.semantic_key@;
        lemma_choice_holds(entries, init, policy, x);
        lemma_choice_holds(entries, init, policy, lineage);
        let before = choice_of(entries, init, policy);
        let after = choice_of(entries, order, policy);
        if after.chosen.len() > before.chosen.len() {
            assert(after.chosen.drop_last() =~= before.chosen);
        }
        assert(order =~= init.push(order.last()));
        lemma_seen_grows(entries, init, order.last(), x);
        lemma_pushed(before.lineages, lineage, x);
        lemma_pushed(before.semantics, meaning, x);
    }
}

/// The choice goes through the candidates from the best on, and takes the next one
/// exactly where there is still room for a skill, nothing before it is of its lineage,
/// nothing before it that was the first of its own lineage does the same thing, and its
/// manifest and its source still fit beside those of the skills chosen so far.
pub proof fn law_the_next_best_that_fits_is_chosen(
    entries: Seq<SnapshotEntry>,
    order: Seq<usize>,
    next: usize,
    policy: RetrievalPolicy,
)
    requires
        policy.manifest_byte_budget < usize::MAX,
        policy.source_byte_budget < usize::MAX,
    ensures
        choice_of(entries, Seq::empty(), policy).chosen == Seq::<usize>::empty(),
        ({
            let chosen = choice_of(entries, order, policy).chosen;
            let entry = entries[next as int];
            let fits = {
                &&& chosen.len() < policy.max_skills
                &&& !lineage_seen(entries, order, entry.lineage_key@)
                &&& !meaning_seen(entries, order, entry.semantic_key@)
                &&& manifests_of(entries, chosen) + entry.manifest_bytes
                    <= policy.manifest_byte_budget
                &&& sources_of(entries, chosen) + entry.source_bytes <= policy.source_byte_budget
            };
            choice_of(entries, order.push(next), policy).chosen == if fits {
                chosen.push(next)
            } else {
                chosen
            }
        }),
        manifests_of(entries, choice_of(entries, order, policy).chosen)
            <= policy.manifest_byte_budget,
        sources_of(entries, choice_of(entries, order, policy).chosen) <= policy.source_byte_budget,
{
    let entry = entries[next as int];
    lemma_choice_holds(entries, order, policy, entry.lineage_key@);
    lemma_choice_holds(entries, order, policy, entry.semantic_key@);
    assert(order.push(next).drop_last() =~= order);
}

proof fn lemma_rows_by_id(rows: Seq<IndexRow>)
    ensures
        rows_by_id(rows).len() == rows.len(),
        rows_by_id(rows).to_multiset() == rows.to_multiset(),
        forall|i: int, j: int|
            0 <= i < j < rows_by_id(rows).len() ==> text::lex_le(
                (#[trigger] rows_by_id(rows)[i]).artifact.id@,
                (#[trigger] rows_by_id(rows)[j]).artifact.id@,
            ),
    decreases rows.len(),
{
    broadcast use vstd::seq_lib::group_to_multiset_ensures;

    if rows.len() > 0 {
        let init = rows.drop_last();
        let x = rows.last();
        let id = x.artifact.id@;
        lemma_rows_by_id(init);
        let before = rows_by_id(init);
        let after = rows_by_id(rows);
        let at = row_point(before, id, 0);
        lemma_row_point(before, id, 0);
        text::lemma_insert_multiset(before, at, x);
        assert(rows =~= init.push(x));
        text::lemma_lex_total_ordering();
        let leq = text::lex_order();
        assert forall|i: int, j: int| 0 <= i < j < after.len() implies text::lex_le(
            (#[trigger] after[i]).artifact.id@,
            (#[trigger] after[j]).artifact.id@,
        ) by {
            let ii = if i < at { i } else { i - 1 };
            let jj = if j < at { j } else { j - 1 };
            if i != at && j != at {
                assert(text::lex_le(before[ii].artifact.id@, before[jj].artifact.id@));
            } else if j == at {
                assert(text::lex_le(before[i].artifact.id@, id));
            } else {
                assert(leq(before[at].artifact.id@, id) || leq(id, before[at].artifact.id@));
                assert(leq(id, before[at].artifact.id@));
                if jj > at {
                    assert(text::lex_le(before[at].artifact.id@, before[jj].artifact.id@));
                    assert(leq(before[at].artifact.id@, before[jj].artifact.id@));
                    assert(leq(id, before[jj].artifact.id@));
                }
            }
        }
    }
}

proof fn lemma_row_point(rows: Seq<IndexRow>, id: Seq<char>, from: int)
    requires
        0 <= from <= rows.len(),
        forall|i: int| 0 <= i < from ==> text::lex_le((#[trigger] rows[i]).artifact.id@, id),
    ensures
        0 <= row_point(rows, id, from) <= rows.len(),
        forall|i: int|
            0 <= i < row_point(rows, id, from) ==> text::lex_le(
                (#[trigger] rows[i]).artifact.id@,
                id,
            ),
        row_point(rows, id, from) < rows.len() ==> !text::lex_le(
            rows[row_point(rows, id, from)].artifact.id@,
            id,
        ),
    decreases rows.len() - from,
{
    if from < rows.len() && text::lex_le(rows[from].artifact.id@, id) {
        lemma_row_point(rows, id, from + 1);
    }
}

/// A snapshot is made of all its rows, in the order of their ids, and of no row that is
/// not active, whose identity does not hold, or whose vector is of another skill, of
/// another model, of another width or not of unit norm.
pub proof fn law_snapshots_hold_only_active_rows_of_their_model(
    rows: Seq<IndexRow>,
    model: ModelMetadata,
)
    ensures
        rows_by_id(rows).to_multiset() == rows.to_multiset(),
        forall|i: int, j: int|
            0 <= i < j < rows_by_id(rows).len() ==> text::lex_le(
                (#[trigger] rows_by_id(rows)[i]).artifact.id@,
                (#[trigger] rows_by_id(rows)[j]).artifact.id@,
            ),
        rows_fault_from(rows_by_id(rows), model, 0) is None <==> forall|i: int|
            0 <= i < rows.len() ==> {
                let row = #[trigger] rows[i];
                &&& row.metadata.status@ == "active"@
                &&& row.artifact@.stored_fault() is None
                &&& row.embedding.skill_id@ == row.artifact.id@
                &&& row.embedding.model_id@ == model.model_id@
                &&& row.embedding.model_revision@ == model.model_revision@
                &&& row.embedding.dimensions == model.dimensions
                &&& row.embedding.values@.len() == model.dimensions
                &&& row.embedding.normalized
                &&& row.embedding.unit
            },
{
    broadcast use vstd::seq_lib::group_to_multiset_ensures;

    lemma_rows_by_id(rows);
    let sorted = rows_by_id(rows);
    lemma_no_row_fault(sorted, model, 0);
    assert forall|row: IndexRow| rows.contains(row) <==> #[trigger] sorted.contains(row) by {
        assert(rows.to_multiset().count(row) > 0 <==> rows.contains(row));
        assert(sorted.to_multiset().count(row) > 0 <==> sorted.contains(row));
    }
    if forall|i: int| 0 <= i < rows.len() ==> row_fault(#[trigger] rows[i], model) is None {
        assert forall|i: int| 0 <= i < sorted.len() implies row_fault(
            #[trigger] sorted[i],
            model,
        ) is None by {
            assert(sorted.contains(sorted[i]));
            assert(rows[rows.index_of(sorted[i])] == sorted[i]);
        }
    }
    if forall|i: int| 0 <= i < sorted.len() ==> row_fault(#[trigger] sorted[i], model) is None {
        assert forall|i: int| 0 <= i < rows.len() implies row_fault(
            #[trigger] rows[i],
            model,
        ) is None by {
            assert(rows.contains(rows[i]));
            assert(sorted.contains(rows[i]));
            assert(sorted[sorted.index_of(rows[i])] == rows[i]);
        }
    }
    assert forall|i: int| 0 <= i < rows.len() implies (row_fault(#[trigger] rows[i], model) is None
        <==> {
        let row = rows[i];
        &&& row.metadata.status@ == "active"@
        &&& row.artifact@.stored_fault() is None
        &&& row.embedding.skill_id@ == row.artifact.id@
        &&& row.embedding.model_id@ == model.model_id@
        &&& row.embedding.model_revision@ == model.model_revision@
        &&& row.embedding.dimensions == model.dimensions
        &&& row.embedding.values@.len() == model.dimensions
        &&& row.embedding.normalized
        &&& row.embedding.unit
    }) by {}
}

proof fn lemma_no_row_fault(rows: Seq<IndexRow>, model: ModelMetadata, from: int)
    requires
        0 <= from <= rows.len(),
    ensures
        rows_fault_from(rows, model, from) is None <==> forall|i: int|
            from <= i < rows.len() ==> row_fault(#[trigger] rows[i], model) is None,
    decreases rows.len() - from,
{
    if from < rows.len() {
        lemma_no_row_fault(rows, model, from + 1);
    }
}

/// Words that say nothing of what is searched for.
pub open spec fn stop_words() -> Seq<Seq<char>> {
    seq![
        "a"@, "an"@, "and"@, "are"@, "as"@, "at"@,
        "be"@, "by"@, "can"@, "do"@, "for"@, "from"@,
        "get"@, "give"@, "how"@, "i"@, "in"@, "into"@,
        "is"@, "it"@, "me"@, "my"@, "of"@, "on"@,
        "or"@, "please"@, "print"@, "show"@, "that"@, "the"@,
        "this"@, "to"@, "use"@, "want"@, "with"@, "you"@,
    ]
}

/// Whether a term says nothing of what is searched for.
pub fn is_stop_word(term: &str) -> (r: bool)
    ensures
        r == stop_words().contains(term@),
{
    let ghost words = stop_words();
    let r = text::same(term, "a")
        || text::same(term, "an")
        || text::same(term, "and")
        || text::same(term, "are")
        || text::same(term, "as")
        || text::same(term, "at")
        || text::same(term, "be")
        || text::same(term, "by")
        || text::same(term, "can")
        || text::same(term, "do")
        || text::same(term, "for")
        || text::same(term, "from")
        || text::same(term, "get")
        || text::same(term, "give")
        || text::same(term, "how")
        || text::same(term, "i")
        || text::same(term, "in")
        || text::same(term, "into")
        || text::same(term, "is")
        || text::same(term, "it")
        || text::same(term, "me")
        || text::same(term, "my")
        || text::same(term, "of")
        || text::same(term, "on")
        || text::same(term, "or")
        || text::same(term, "please")
        || text::same(term, "print")
        || text::same(term, "show")
        || text::same(term, "that")
        || text::same(term, "the")
        || text::same(term, "this")
        || text::same(term, "to")
        || text::same(term, "use")
        || text::same(term, "want")
        || text::same(term, "with")
        || text::same(term, "you");
    proof {
        assert(words[0] == "a"@);
        assert(words[1] == "an"@);
        assert(words[2] == "and"@);
        assert(words[3] == "are"@);
        assert(words[4] == "as"@);
        assert(words[5] == "at"@);
        assert(words[6] == "be"@);
        assert(words[7] == "by"@);
        assert(words[8] == "can"@);
        assert(words[9] == "do"@);
        assert(words[10] == "for"@);
        assert(words[11] == "from"@);
        assert(words[12] == "get"@);
        assert(words[13] == "give"@);
        assert(words[14] == "how"@);
        assert(words[15] == "i"@);
        assert(words[16] == "in"@);
        assert(words[17] == "into"@);
        assert(words[18] == "is"@);
        assert(words[19] == "it"@);
        assert(words[20] == "me"@);
        assert(words[21] == "my"@);
        assert(words[22] == "of"@);
        assert(words[23] == "on"@);
        assert(words[24] == "or"@);
        assert(words[25] == "please"@);
        assert(words[26] == "print"@);
        assert(words[27] == "show"@);
        assert(words[28] == "that"@);
        assert(words[29] == "the"@);
        assert(words[30] == "this"@);
        assert(words[31] == "to"@);
        assert(words[32] == "use"@);
        assert(words[33] == "want"@);
        assert(words[34] == "with"@);
        assert(words[35] == "you"@);
        if words.contains(term@) {
            let i = words.index_of(term@);
            assert(words[i] == term@);
        }
    }
    r
}

/// A character of a term.
pub open spec fn is_term_char(c: char) -> bool {
    text::alphanumeric(c) || c == '_'
}

/// The runs of term characters that are closed, and the one still open.
pub open spec fn term_runs(s: Seq<char>) -> (Seq<Seq<char>>, Seq<char>)
    decreases s.len(),
{
    if s.len() == 0 {
        (Seq::empty(), Seq::empty())
    } else {
        let (done, open) = term_runs(s.drop_last());
        if is_term_char(s.last()) {
            (done, open.push(s.last()))
        } else {
            (text::with_run(done, open), Seq::empty())
        }
    }
}

/// The runs of term characters of a text.
pub open spec fn raw_terms(s: Seq<char>) -> Seq<Seq<char>> {
    text::with_run(term_runs(s).0, term_runs(s).1)
}

/// Of ASCII characters exactly the letters and the digits are alphanumeric.
pub open spec fn knows_ascii(s: Seq<char>) -> bool {
    forall|i: int|
        0 <= i < s.len() && s[i] as u32 <= 127 ==> #[trigger] text::alphanumeric(s[i])
            == text::ascii_alphanumeric(s[i])
}

/// On terms of ASCII characters, lower case is that of the ASCII capitals.
pub open spec fn lowers_ascii(terms: Seq<Seq<char>>) -> bool {
    forall|i: int|
        0 <= i < terms.len() && text::is_ascii_text(terms[i]) ==> #[trigger] text::lowercased(
            terms[i],
        ) == text::ascii_lower(terms[i])
}

fn split_terms(s: &str) -> (r: Vec<String>)
    ensures
        text::views(r@) == raw_terms(s@),
        knows_ascii(s@),
{
    let chars = text::chars_of(s);
    let mut done: Vec<String> = Vec::new();
    let mut open = String::new();
    let mut i: usize = 0;
    proof {
        assert(s@.take(0).len() == 0);
        assert(text::views(done@) =~= Seq::empty());
    }
    while i < chars.len()
        invariant
            i <= chars@.len(),
            chars@ == s@,
            text::views(done@) == term_runs(s@.take(i as int)).0,
            open@ == term_runs(s@.take(i as int)).1,
            forall|j: int|
                0 <= j < i && s@[j] as u32 <= 127 ==> #[trigger] text::alphanumeric(s@[j])
                    == text::ascii_alphanumeric(s@[j]),
        decreases chars@.len() - i,
    {
        let ghost before = text::views(done@);
        let ghost run = open@;
        proof {
            assert(s@.take(i + 1).drop_last() =~= s@.take(i as int));
            assert(s@.take(i + 1).last() == s@[i as int]);
        }
        if text::is_alphanumeric(chars[i]) || chars[i] == '_' {
            open.push(chars[i]);
        } else {
            if !open.as_str().is_empty() {
                done.push(open);
                assert(text::views(done@) =~= before.push(run));
            }
            open = String::new();
        }
        i = i + 1;
    }
    assert(s@.take(s@.len() as int) =~= s@);
    let ghost before = text::views(done@);
    let ghost run = open@;
    if !open.as_str().is_empty() {
        done.push(open);
        assert(text::views(done@) =~= before.push(run));
    }
    done
}

/// Terms in lower case, without stop words.
pub open spec fn significant(terms: Seq<Seq<char>>) -> Seq<Seq<char>>
    decreases terms.len(),
{
    if terms.len() == 0 {
        Seq::empty()
    } else {
        let before = significant(terms.drop_last());
        let term = text::lowercased(terms.last());
        if term.len() > 0 && !stop_words().contains(term) {
            before.push(term)
        } else {
            before
        }
    }
}

fn significant_terms(s: &str) -> (r: Vec<String>)
    ensures
        text::views(r@) == significant(raw_terms(s@)),
        knows_ascii(s@),
        lowers_ascii(raw_terms(s@)),
{
    let raw = split_terms(s);
    let ghost given = raw_terms(s@);
    let mut out: Vec<String> = Vec::new();
    let mut i: usize = 0;
    proof {
        assert(given.take(0).len() == 0);
        assert(text::views(out@) =~= significant(given.take(0)));
    }
    while i < raw.len()
        invariant
            i <= raw@.len(),
            text::views(raw@) == given,
            text::views(out@) == significant(given.take(i as int)),
            forall|j: int|
                0 <= j < i && text::is_ascii_text(given[j]) ==> #[trigger] text::lowercased(
                    given[j],
                ) == text::ascii_lower(given[j]),
        decreases raw@.len() - i,
    {
        let ghost before = text::views(out@);
        proof {
            assert(given[i as int] == raw@[i as int]@);
            assert(given.take(i + 1).drop_last() =~= given.take(i as int));
            assert(given.take(i + 1).last() == given[i as int]);
        }
        let term = text::to_lowercase(&raw[i]);
        if !term.as_str().is_empty() && !is_stop_word(&term) {
            out.push(term);
            assert(text::views(out@) =~= before.push(term@));
        }
        i = i + 1;
    }
    assert(given.take(given.len() as int) =~= given);
    out
}

/// The first terms of a text, in order.
pub fn lexical_tokens(s: &str) -> (r: Vec<String>)
    ensures
        text::views(r@) == first(significant(raw_terms(s@)), MAX_QUERY_TERMS as nat),
        knows_ascii(s@),
        lowers_ascii(raw_terms(s@)),
{
    let mut all = significant_terms(s);
    let ghost full = text::views(all@);
    if all.len() > MAX_QUERY_TERMS {
        all.truncate(MAX_QUERY_TERMS);
        assert(text::views(all@) =~= full.take(MAX_QUERY_TERMS as int));
    }
    all
}

/// The first distinct terms, up to a limit.
pub open spec fn distinct_terms(terms: Seq<Seq<char>>, limit: nat) -> Seq<Seq<char>>
    decreases terms.len(),
{
    if terms.len() == 0 {
        Seq::empty()
    } else {
        let before = distinct_terms(terms.drop_last(), limit);
        if before.len() >= limit || before.contains(terms.last()) {
            before
        } else {
            before.push(terms.last())
        }
    }
}

/// The terms that a query is searched by.
pub open spec fn query_terms(query: Seq<char>) -> Seq<Seq<char>> {
    text::sorted_texts(distinct_terms(significant(raw_terms(query)), MAX_QUERY_TERMS as nat))
}

/// The terms that a query is searched by, in order, each once.
pub fn lexical_query_terms(query: &str) -> (r: Vec<String>)
    ensures
        text::views(r@) == query_terms(query@),
        knows_ascii(query@),
        lowers_ascii(raw_terms(query@)),
{
    let all = significant_terms(query);
    let ghost given = significant(raw_terms(query@));
    let mut terms: Vec<String> = Vec::new();
    let mut i: usize = 0;
    proof {
        assert(given.take(0).len() == 0);
        assert(text::views(terms@) =~= Seq::empty());
    }
    while i < all.len()
        invariant
            i <= all@.len(),
            text::views(all@) == given,
            text::views(terms@) == distinct_terms(given.take(i as int), MAX_QUERY_TERMS as nat),
            text::views(terms@).len() == terms@.len(),
        decreases all@.len() - i,
    {
        let ghost before = text::views(terms@);
        proof {
            assert(given[i as int] == all@[i as int]@);
            assert(given.take(i + 1).drop_last() =~= given.take(i as int));
            assert(given.take(i + 1).last() == given[i as int]);
        }
        if terms.len() < MAX_QUERY_TERMS && !text::contains_text(&terms, &all[i]) {
            let term = all[i].clone();
            terms.push(term);
            assert(text::views(terms@) =~= before.push(term@));
        }
        i = i + 1;
    }
    assert(given.take(given.len() as int) =~= given);
    text::sort_strings(terms)
}

/// The positions below `n` of terms that occur.
pub open spec fn weighted_positions(weights: Seq<Option<i64>>, n: nat) -> Seq<usize>
    decreases n,
{
    if n == 0 {
        Seq::empty()
    } else {
        let before = weighted_positions(weights, (n - 1) as nat);
        if weights[n - 1] is Some {
            before.push((n - 1) as usize)
        } else {
            before
        }
    }
}

pub open spec fn weight_values(weights: Seq<Option<i64>>) -> Seq<i64> {
    weights.map_values(|w: Option<i64>| if w is Some { w->0 } else { 0 })
}

/// The positions below `n` that are in a list.
pub open spec fn listed_positions(list: Seq<usize>, n: nat) -> Seq<usize>
    decreases n,
{
    if n == 0 {
        Seq::empty()
    } else {
        let before = listed_positions(list, (n - 1) as nat);
        if list.contains((n - 1) as usize) {
            before.push((n - 1) as usize)
        } else {
            before
        }
    }
}

/// A text with every quotation mark doubled.
pub open spec fn doubled_quotes(s: Seq<char>) -> Seq<char>
    decreases s.len(),
{
    if s.len() == 0 {
        s
    } else if s.last() == '"' {
        doubled_quotes(s.drop_last()).push('"').push('"')
    } else {
        doubled_quotes(s.drop_last()).push(s.last())
    }
}

/// A term as the search engine takes it.
pub open spec fn quoted_term(s: Seq<char>) -> Seq<char> {
    doubled_quotes(s).insert(0, '"').push('"')
}

/// The terms at positions, quoted.
pub open spec fn quoted_terms(terms: Seq<Seq<char>>, positions: Seq<usize>) -> Seq<Seq<char>> {
    positions.map_values(|p: usize| quoted_term(terms[p as int]))
}

/// The weightiest terms, in their order.
pub open spec fn searched_positions(weights: Seq<Option<i64>>) -> Seq<usize> {
    listed_positions(
        first(
            ranked(weighted_positions(weights, weights.len()), weight_values(weights)),
            MAX_FTS_QUERY_TERMS as nat,
        ),
        weights.len(),
    )
}

fn quote_term(s: &str) -> (r: String)
    ensures
        r@ == quoted_term(s@),
{
    let chars = text::chars_of(s);
    let mut out = String::new();
    out.push('"');
    let mut i: usize = 0;
    proof {
        assert(s@.take(0).len() == 0);
        assert(out@ =~= doubled_quotes(s@.take(0)).insert(0, '"'));
    }
    while i < chars.len()
        invariant
            i <= chars@.len(),
            chars@ == s@,
            out@ == doubled_quotes(s@.take(i as int)).insert(0, '"'),
        decreases chars@.len() - i,
    {
        proof {
            assert(s@.take(i + 1).drop_last() =~= s@.take(i as int));
            assert(s@.take(i + 1).last() == s@[i as int]);
        }
        if chars[i] == '"' {
            out.push('"');
        }
        out.push(chars[i]);
        assert(out@ =~= doubled_quotes(s@.take(i + 1)).insert(0, '"'));
        i = i + 1;
    }
    assert(s@.take(s@.len() as int) =~= s@);
    out.push('"');
    out
}

proof fn lemma_weighted(weights: Seq<Option<i64>>, n: nat)
    requires
        n <= weights.len(),
        n <= usize::MAX,
    ensures
        forall|i: int|
            0 <= i < weighted_positions(weights, n).len() ==> (
            #[trigger] weighted_positions(weights, n)[i]) < n,
    decreases n,
{
    if n > 0 {
        lemma_weighted(weights, (n - 1) as nat);
        let before = weighted_positions(weights, (n - 1) as nat);
        let all = weighted_positions(weights, n);
        assert forall|i: int| 0 <= i < all.len() implies (#[trigger] all[i]) < n by {
            if i < before.len() {
                assert(all[i] == before[i]);
            }
        }
    }
}

/// The expression that the search engine is asked, from the terms of a query in
/// order and their weights. A term that occurs nowhere has no weight; only the
/// weightiest terms are searched for.
pub fn fts_query(terms: &Vec<String>, weights: &Vec<Option<i64>>) -> (r: Option<String>)
    requires
        terms@.len() == weights@.len(),
    ensures
        ({
            let positions = searched_positions(weights@);
            match r {
                None => positions.len() == 0,
                Some(s) => positions.len() > 0 && s@ == text::joined(
                    quoted_terms(text::views(terms@), positions),
                    " OR "@,
                ),
            }
        }),
{
    let ghost all = text::views(terms@);
    let mut candidates: Vec<usize> = Vec::new();
    let mut values: Vec<i64> = Vec::new();
    let mut i: usize = 0;
    assert(values@ =~= weight_values(weights@).take(0));
    while i < weights.len()
        invariant
            i <= weights@.len(),
            candidates@ == weighted_positions(weights@, i as nat),
            values@ == weight_values(weights@).take(i as int),
        decreases weights@.len() - i,
    {
        let value: i64 = match weights[i] {
            Some(w) => {
                candidates.push(i);
                w
            },
            None => 0,
        };
        values.push(value);
        assert(weight_values(weights@).take(i + 1) =~= weight_values(weights@).take(i as int).push(
            value,
        ));
        i = i + 1;
    }
    proof {
        assert(weight_values(weights@).take(weights@.len() as int) =~= weight_values(weights@));
        lemma_weighted(weights@, weights@.len());
    }
    let best = rank_best(&candidates, &values, MAX_FTS_QUERY_TERMS);
    let mut quoted: Vec<String> = Vec::new();
    let ghost mut positions: Seq<usize> = Seq::empty();
    let mut k: usize = 0;
    assert(text::views(quoted@) =~= quoted_terms(all, positions));
    while k < weights.len()
        invariant
            k <= weights@.len(),
            terms@.len() == weights@.len(),
            all == text::views(terms@),
            positions == listed_positions(best@, k as nat),
            text::views(quoted@) == quoted_terms(all, positions),
            quoted@.len() == positions.len(),
        decreases weights@.len() - k,
    {
        let ghost before = text::views(quoted@);
        if holds_position(&best, k) {
            let item = quote_term(&terms[k]);
            quoted.push(item);
            proof {
                assert(all[k as int] == terms@[k as int]@);
                positions = positions.push(k);
                assert(text::views(quoted@) =~= before.push(item@));
                assert(quoted_terms(all, positions) =~= before.push(item@));
            }
        }
        k = k + 1;
    }
    if quoted.len() == 0 {
        return None;
    }
    Some(text::join(&quoted, " OR "))
}

fn holds_position(list: &Vec<usize>, position: usize) -> (r: bool)
    ensures
        r == list@.contains(position),
{
    let mut i: usize = 0;
    while i < list.len()
        invariant
            i <= list@.len(),
            forall|j: int| 0 <= j < i ==> list@[j] != position,
        decreases list@.len() - i,
    {
        if list[i] == position {
            assert(list@[i as int] == position);
            return true;
        }
        i = i + 1;
    }
    false
}

/// What the text search knows of a skill.
#[derive(Debug, Clone, PartialEq, Eq)]
pub struct LexicalRow {
    pub id: String,
    pub identifiers: String,
    pub description: String,
    pub tags: String,
    pub exports: String,
}

/// The names of exports.
pub open spec fn export_names(exports: Seq<crate::artifact::ExportModel>) -> Seq<Seq<char>> {
    exports.map_values(|e: crate::artifact::ExportModel| e.name)
}

/// Each export as its name and its signature.
pub open spec fn export_lines(exports: Seq<crate::artifact::ExportModel>) -> Seq<Seq<char>> {
    exports.map_values(|e: crate::artifact::ExportModel| e.name + " "@ + e.signature)
}

/// What the text search is given of a skill.
pub fn lexical_row(artifact: &SkillArtifact) -> (r: LexicalRow)
    ensures
        r.id@ == artifact.id@,
        r.identifiers@ == text::joined(export_names(artifact@.exports), " "@),
        r.description@ == artifact.description@,
        r.tags@ == text::joined(text::views(artifact.tags@), " "@),
        r.exports@ == text::joined(export_lines(artifact@.exports), " "@),
{
    let ghost exports = artifact@.exports;
    let mut names: Vec<String> = Vec::new();
    let mut lines: Vec<String> = Vec::new();
    let mut i: usize = 0;
    proof {
        assert(text::views(names@) =~= export_names(exports).take(0));
        assert(text::views(lines@) =~= export_lines(exports).take(0));
    }
    while i < artifact.exports.len()
        invariant
            i <= artifact.exports@.len(),
            exports == artifact@.exports,
            exports.len() == artifact.exports@.len(),
            text::views(names@) == export_names(exports).take(i as int),
            text::views(lines@) == export_lines(exports).take(i as int),
        decreases artifact.exports@.len() - i,
    {
        let ghost known = text::views(names@);
        let ghost shown = text::views(lines@);
        let name = artifact.exports[i].name.clone();
        let line = text::join3(&name, " ", &artifact.exports[i].signature);
        proof {
            assert(exports[i as int] == artifact.exports@[i as int]@);
            assert(export_names(exports).take(i + 1) =~= known.push(name@));
            assert(export_lines(exports).take(i + 1) =~= shown.push(line@));
        }
        names.push(name);
        lines.push(line);
        proof {
            assert(text::views(names@) =~= known.push(name@));
            assert(text::views(lines@) =~= shown.push(line@));
        }
        i = i + 1;
    }
    proof {
        assert(export_names(exports).take(exports.len() as int) =~= export_names(exports));
        assert(export_lines(exports).take(exports.len() as int) =~= export_lines(exports));
    }
    LexicalRow {
        id: artifact.id.clone(),
        identifiers: text::join(&names, " "),
        description: artifact.description.clone(),
        tags: text::join(&artifact.tags, " "),
        exports: text::join(&lines, " "),
    }
}

/// A query is searched exactly where it is at most 8192 bytes long and its vector is as
/// wide as the model, finite and of unit norm.
pub proof fn law_queries_fit_their_model(
    query: Seq<char>,
    shape: QueryShape,
    model: ModelMetadata,
)
    ensures
        query_fault(query, shape, model) is None <==> text::utf8_len(query) <= 8192 && shape.width
            == model.dimensions && shape.finite && shape.unit,
{
}

/// The terms of a text that are looked at are its runs of term characters, in lower case
/// and in order, without the words that say nothing.
pub proof fn law_terms_say_something(terms: Seq<Seq<char>>)
    ensures
        significant(terms) == terms.map_values(|term: Seq<char>| text::lowercased(term)).filter(
            |term: Seq<char>| term.len() > 0 && !stop_words().contains(term),
        ),
    decreases terms.len(),
{
    reveal(Seq::filter);
    let lower = |term: Seq<char>| text::lowercased(term);
    let says = |term: Seq<char>| term.len() > 0 && !stop_words().contains(term);
    if terms.len() > 0 {
        law_terms_say_something(terms.drop_last());
        assert(terms.map_values(lower).drop_last() =~= terms.drop_last().map_values(lower));
        assert(terms.map_values(lower).last() == lower(terms.last()));
    } else {
        assert(terms.map_values(lower).filter(says) =~= significant(terms));
    }
}

/// Of the terms of a query each counts once, the first ones up to the limit; where they
/// are fewer, all of them count.
pub proof fn law_query_terms_count_once(terms: Seq<Seq<char>>, limit: nat)
    ensures
        distinct_terms(terms, limit).no_duplicates(),
        distinct_terms(terms, limit).len() <= limit,
        forall|i: int|
            0 <= i < distinct_terms(terms, limit).len() ==> terms.contains(
                #[trigger] distinct_terms(terms, limit)[i],
            ),
        distinct_terms(terms, limit).len() < limit ==> forall|i: int|
            0 <= i < terms.len() ==> distinct_terms(terms, limit).contains(#[trigger] terms[i]),
    decreases terms.len(),
{
    if terms.len() > 0 {
        let init = terms.drop_last();
        law_query_terms_count_once(init, limit);
        let before = distinct_terms(init, limit);
        let after = distinct_terms(terms, limit);
        assert forall|i: int| 0 <= i < after.len() implies terms.contains(#[trigger] after[i]) by {
            if i < before.len() {
                assert(after[i] == before[i]);
                let k = init.index_of(before[i]);
                assert(terms[k] == before[i]);
            } else {
                assert(terms[terms.len() - 1] == after[i]);
            }
        }
        if after.len() < limit {
            assert forall|i: int| 0 <= i < terms.len() implies after.contains(
                #[trigger] terms[i],
            ) by {
                if i < init.len() {
                    assert(init[i] == terms[i]);
                    assert(before.contains(init[i]));
                    let k = before.index_of(init[i]);
                    assert(after[k] == terms[i]);
                } else if !before.contains(terms[i]) {
                    assert(after[before.len() as int] == terms[i]);
                }
            }
        }
    }
}

proof fn lemma_weighted_exactly(weights: Seq<Option<i64>>, n: nat)
    requires
        n <= weights.len(),
    ensures
        weighted_positions(weights, n) == eligible_positions(
            weights.map_values(|w: Option<i64>| false),
            weights.map_values(|w: Option<i64>| w is Some),
            n,
        ),
    decreases n,
{
    if n > 0 {
        lemma_weighted_exactly(weights, (n - 1) as nat);
    }
}

proof fn lemma_listed_exactly(list: Seq<usize>, n: nat)
    requires
        n <= usize::MAX,
    ensures
        forall|p: usize|
            #[trigger] listed_positions(list, n).contains(p) <==> p < n && list.contains(p),
        forall|i: int, j: int|
            0 <= i < j < listed_positions(list, n).len() ==> #[trigger] listed_positions(
                list,
                n,
            )[i] < #[trigger] listed_positions(list, n)[j],
    decreases n,
{
    if n > 0 {
        lemma_listed_exactly(list, (n - 1) as nat);
        let before = listed_positions(list, (n - 1) as nat);
        let all = listed_positions(list, n);
        assert forall|p: usize| #[trigger] all.contains(p) <==> p < n && list.contains(p) by {
            if before.contains(p) {
                assert(all[before.index_of(p)] == p);
            }
            if all.contains(p) {
                let i = all.index_of(p);
                if i < before.len() {
                    assert(before[i] == p);
                    assert(before.contains(p));
                }
            }
            if p == n - 1 && list.contains(p) {
                assert(all[before.len() as int] == p);
            }
        }
        assert forall|i: int, j: int| 0 <= i < j < all.len() implies #[trigger] all[i]
            < #[trigger] all[j] by {
            assert(all[i] == before[i]);
            assert(before.contains(before[i]));
            if j < before.len() {
                assert(all[j] == before[j]);
            }
        }
    } else {
        assert(listed_positions(list, 0).len() == 0);
    }
}

/// The terms that are searched for occur somewhere, are at most sixteen, and stand in their
/// order; a term that occurs and is left out is of no more weight than any of them.
pub proof fn law_the_weightiest_terms_are_searched(weights: Seq<Option<i64>>)
    requires
        weights.len() <= usize::MAX,
    ensures
        ({
            let r = searched_positions(weights);
            &&& r.len() <= 16
            &&& forall|i: int|
                0 <= i < r.len() ==> (#[trigger] r[i]) < weights.len() && weights[r[i] as int]
                    is Some
            &&& forall|i: int, j: int|
                0 <= i < j < r.len() ==> #[trigger] r[i] < #[trigger] r[j]
            &&& forall|p: usize, i: int|
                p < weights.len() && weights[p as int] is Some && !(#[trigger] r.contains(p)) && 0
                    <= i < r.len() ==> weights[p as int]->0 <= weights[(#[trigger] r[i]) as int]->0
        }),
{
    let none = weights.map_values(|w: Option<i64>| false);
    let some = weights.map_values(|w: Option<i64>| w is Some);
    let n = weights.len();
    let values = weight_values(weights);
    lemma_weighted_exactly(weights, n);
    lemma_eligible_exactly(none, some, n);
    let all = weighted_positions(weights, n);
    assert(all.no_duplicates());
    let wanted = |p: usize| p < n && weights[p as int] is Some;
    assert forall|p: usize| #[trigger] wanted(p) <==> all.contains(p) by {
        if p < n {
            assert(none[p as int] == false && some[p as int] == (weights[p as int] is Some));
        }
    }
    lemma_first_of_ranked_are_best(all, wanted, values, MAX_FTS_QUERY_TERMS as nat);
    let best = first(ranked(all, values), MAX_FTS_QUERY_TERMS as nat);
    lemma_listed_exactly(best, n);
    let r = searched_positions(weights);
    assert(r.no_duplicates());
    r.unique_seq_to_set();
    best.unique_seq_to_set();
    assert(r.to_set().subset_of(best.to_set())) by {
        assert forall|p: usize| r.to_set().contains(p) implies best.to_set().contains(p) by {
            assert(r.contains(p));
        }
    }
    vstd::set_lib::lemma_len_subset(r.to_set(), best.to_set());
    assert forall|i: int| 0 <= i < r.len() implies (#[trigger] r[i]) < weights.len()
        && weights[r[i] as int] is Some by {
        assert(r.contains(r[i]));
        let k = best.index_of(r[i]);
        assert(wanted(best[k]));
    }
    assert forall|p: usize, i: int|
        p < weights.len() && weights[p as int] is Some && !(#[trigger] r.contains(p)) && 0 <= i
            < r.len() implies weights[p as int]->0 <= weights[(#[trigger] r[i]) as int]->0 by {
        assert(wanted(p));
        assert(!best.contains(p));
        assert(r.contains(r[i]));
        let k = best.index_of(r[i]);
        assert(best[k] == r[i]);
        assert(values[p as int] == weights[p as int]->0);
        assert(wanted(r[i]));
        assert(values[r[i] as int] == weights[r[i] as int]->0);
        assert(values[p as int] <= values[best[k] as int]);
    }
}

/// An entry of a snapshot is of its row: the lineage of what it replaces, or else its own;
/// its costs are those of its texts.
pub proof fn law_entries_are_of_their_rows(row: IndexRow, entry: SnapshotEntry)
    requires
        entry_of(row, entry),
    ensures
        entry.artifact == row.artifact,
        row.metadata.supersedes_id is Some ==> entry.lineage_key@ == row.metadata.supersedes_id->0@,
        row.metadata.supersedes_id is None ==> entry.lineage_key@ == row.artifact.id@,
        entry.source_bytes == text::utf8_len(row.artifact.source@),
        entry.manifest_bytes < usize::MAX ==> entry.manifest_bytes == text::utf8_len(
            row.artifact.id@,
        ) + text::utf8_len(row.artifact.description@) + bytes_of_exports(row.artifact@.exports)
            + bytes_of_all(text::views(row.serialized_grants@)) + 128,
        entry.values@ == row.embedding.values@,
{
}

} // verus!
