//! Embedding configuration, documents and the bounded query cache.
//!
//! Vectors themselves are made outside the library; it decides which backend and
//! which model identity are used, what is embedded, how answers are placed and how
//! long query vectors are kept.

use crate::artifact::SkillArtifact;
use crate::digest;
use crate::json;
use crate::json::{Json, JsonValue};
use crate::text;
use vstd::prelude::*;
use vstd::relations::*;
use vstd::seq_lib::lemma_sorted_unique;
use vstd::string::*;

verus! {

/// Why an embedding could not be made.
#[derive(Debug, Clone, PartialEq, Eq)]
pub enum EmbeddingError {
    InitializationFailed(String),
    EmptyDocument,
    EmptyQuery,
    NonFiniteValue,
    DimensionMismatch { expected: usize, actual: usize },
    Cancelled,
    WorkerSaturated,
    WorkerPanic,
    RequestFailed(String),
    InvalidConfiguration(String),
}

/// The contents of an [`EmbeddingError`].
#[verifier::ext_equal]
pub enum EmbeddingFault {
    InitializationFailed(Seq<char>),
    EmptyDocument,
    EmptyQuery,
    NonFiniteValue,
    DimensionMismatch { expected: usize, actual: usize },
    Cancelled,
    WorkerSaturated,
    WorkerPanic,
    RequestFailed(Seq<char>),
    InvalidConfiguration(Seq<char>),
}

impl View for EmbeddingError {
    type V = EmbeddingFault;

    open spec fn view(&self) -> EmbeddingFault {
        match *self {
            EmbeddingError::InitializationFailed(s) => EmbeddingFault::InitializationFailed(s@),
            EmbeddingError::EmptyDocument => EmbeddingFault::EmptyDocument,
            EmbeddingError::EmptyQuery => EmbeddingFault::EmptyQuery,
            EmbeddingError::NonFiniteValue => EmbeddingFault::NonFiniteValue,
            EmbeddingError::DimensionMismatch { expected, actual } => {
                EmbeddingFault::DimensionMismatch { expected, actual }
            },
            EmbeddingError::Cancelled => EmbeddingFault::Cancelled,
            EmbeddingError::WorkerSaturated => EmbeddingFault::WorkerSaturated,
            EmbeddingError::WorkerPanic => EmbeddingFault::WorkerPanic,
            EmbeddingError::RequestFailed(s) => EmbeddingFault::RequestFailed(s@),
            EmbeddingError::InvalidConfiguration(s) => EmbeddingFault::InvalidConfiguration(s@),
        }
    }
}

impl EmbeddingFault {
    /// The sentence that reports the fault.
    pub open spec fn sentence(self) -> Seq<char> {
        match self {
            EmbeddingFault::InitializationFailed(s) => {
                "model initialization or download failed: "@ + s
            },
            EmbeddingFault::EmptyDocument => "empty document provided"@,
            EmbeddingFault::EmptyQuery => "empty query provided"@,
            EmbeddingFault::NonFiniteValue => "embedding contains non-finite value"@,
            EmbeddingFault::DimensionMismatch { expected, actual } => {
                "dimension mismatch: expected "@ + text::decimal(expected as nat) + ", got "@
                    + text::decimal(actual as nat)
            },
            EmbeddingFault::Cancelled => "embedding inference was cancelled"@,
            EmbeddingFault::WorkerSaturated => {
                "embedding worker exhausted: too many concurrent requests"@
            },
            EmbeddingFault::WorkerPanic => "embedding worker panicked"@,
            EmbeddingFault::RequestFailed(s) => "embedding request failed: "@ + s,
            EmbeddingFault::InvalidConfiguration(s) => {
                "invalid embedding configuration: "@ + s
            },
        }
    }
}

impl EmbeddingError {
    /// The sentence that reports the error.
    pub fn message(&self) -> (r: String)
        ensures
            r@ == self@.sentence(),
    {
        match self {
            EmbeddingError::InitializationFailed(s) => {
                text::join2("model initialization or download failed: ", s)
            },
            EmbeddingError::EmptyDocument => "empty document provided".to_owned(),
            EmbeddingError::EmptyQuery => "empty query provided".to_owned(),
            EmbeddingError::NonFiniteValue => "embedding contains non-finite value".to_owned(),
            EmbeddingError::DimensionMismatch { expected, actual } => {
                let wanted = text::render_u64(*expected as u64);
                let got = text::render_u64(*actual as u64);
                let mut out = text::join3("dimension mismatch: expected ", &wanted, ", got ");
                out.append(&got);
                out
            },
            EmbeddingError::Cancelled => "embedding inference was cancelled".to_owned(),
            EmbeddingError::WorkerSaturated => {
                "embedding worker exhausted: too many concurrent requests".to_owned()
            },
            EmbeddingError::WorkerPanic => "embedding worker panicked".to_owned(),
            EmbeddingError::RequestFailed(s) => text::join2("embedding request failed: ", s),
            EmbeddingError::InvalidConfiguration(s) => {
                text::join2("invalid embedding configuration: ", s)
            },
        }
    }
}

/// The offline backend: vectors from hashes, under an identity of its own.
#[derive(Debug, Clone, PartialEq, Eq)]
pub struct DeterministicBackend {
    pub model_id: String,
    pub model_revision: String,
    pub dimensions: usize,
}

/// The bytes that are hashed for one text.
pub open spec fn hash_preimage(s: Seq<char>, revision: Seq<char>, index: u64) -> Seq<u8> {
    vstd::utf8::encode_utf8(revision) + seq![0u8] + digest::u64_le(index as nat) + seq![0u8]
        + vstd::utf8::encode_utf8(s)
}

/// The pairs of neighbouring hash bytes, walked round and round, from which each
/// coordinate of a vector is made.
pub open spec fn hash_pairs(hash: Seq<u8>, dims: nat) -> Seq<(u8, u8)> {
    Seq::new(dims, |i: int| (hash[i % 32], hash[(i + 1) % 32]))
}

impl DeterministicBackend {
    /// The backend under its own model identity.
    pub fn new() -> (r: DeterministicBackend)
        ensures
            r.model_id@ == "deterministic-hash"@,
            r.model_revision@ == "deterministic-v1"@,
            r.dimensions == 384,
    {
        DeterministicBackend {
            model_id: "deterministic-hash".to_owned(),
            model_revision: "deterministic-v1".to_owned(),
            dimensions: 384,
        }
    }

    pub fn model_id(&self) -> (r: &str)
        ensures
            r@ == self.model_id@,
    {
        self.model_id.as_str()
    }

    pub fn model_revision(&self) -> (r: &str)
        ensures
            r@ == self.model_revision@,
    {
        self.model_revision.as_str()
    }

    pub fn dimensions(&self) -> (r: usize)
        ensures
            r == self.dimensions,
    {
        self.dimensions
    }

    pub fn normalized(&self) -> (r: bool)
        ensures
            r,
    {
        true
    }

    /// The hash bytes behind each coordinate of the vector of a text. A coordinate
    /// is the mean of its two bytes, as parts of 255, less one half, before the
    /// vector is scaled to unit norm.
    pub fn hash_to_vector(s: &str, model_revision: &str, doc_index: u64, dims: usize) -> (r: Vec<
        (u8, u8),
    >)
        ensures
            r@ == hash_pairs(
                digest::sha256(hash_preimage(s@, model_revision@, doc_index)),
                dims as nat,
            ),
    {
        let mut bytes: Vec<u8> = Vec::new();
        digest::push_bytes(&mut bytes, model_revision.as_bytes());
        assert(bytes@ =~= vstd::utf8::encode_utf8(model_revision@));
        bytes.push(0);
        assert(bytes@ =~= vstd::utf8::encode_utf8(model_revision@) + seq![0u8]);
        digest::push_u64(&mut bytes, doc_index);
        let ghost before = bytes@;
        bytes.push(0);
        assert(bytes@ =~= before + seq![0u8]);
        digest::push_bytes(&mut bytes, s.as_bytes());
        assert(bytes@ =~= hash_preimage(s@, model_revision@, doc_index));
        let hash = digest::sha256_bytes(&bytes);
        DeterministicBackend::pairs_from_hash(&hash, dims)
    }

    /// The hash bytes behind each coordinate of a vector, from a hash.
    pub fn pairs_from_hash(hash: &Vec<u8>, dims: usize) -> (r: Vec<(u8, u8)>)
        requires
            hash@.len() == 32,
        ensures
            r@ == hash_pairs(hash@, dims as nat),
    {
        let ghost wanted = hash_pairs(hash@, dims as nat);
        let mut out: Vec<(u8, u8)> = Vec::new();
        let mut i: usize = 0;
        while i < dims
            invariant
                i <= dims,
                hash@.len() == 32,
                wanted == hash_pairs(hash@, dims as nat),
                out@ =~= wanted.take(i as int),
            decreases dims - i,
        {
            let at: usize = i % 32;
            let beside: usize = (at + 1) % 32;
            assert((i + 1) % 32 == beside) by {
                assert(i == 32 * (i / 32) + i % 32) by (nonlinear_arith);
            }
            let pair = (hash[at], hash[beside]);
            assert(pair == wanted[i as int]);
            out.push(pair);
            i = i + 1;
        }
        assert(wanted.take(dims as int) =~= wanted);
        out
    }

    /// The hash bytes behind the vector of a text at a position.
    pub open spec fn pairs_of(self, s: Seq<char>, index: u64) -> Seq<(u8, u8)> {
        hash_pairs(
            digest::sha256(hash_preimage(s, self.model_revision@, index)),
            self.dimensions as nat,
        )
    }

    /// The hash bytes behind the vector of each document. The position of a document
    /// is hashed with it.
    pub fn embed_documents(&self, documents: &Vec<String>) -> (r: Result<
        Vec<Vec<(u8, u8)>>,
        EmbeddingError,
    >)
        ensures
            match r {
                Ok(vectors) => {
                    &&& no_blank_document(text::views(documents@))
                    &&& vectors@.len() == documents@.len()
                    &&& forall|i: int|
                        0 <= i < vectors@.len() ==> (#[trigger] vectors@[i])@ == self.pairs_of(
                            documents@[i]@,
                            i as u64,
                        )
                },
                Err(e) => e@ == EmbeddingFault::EmptyDocument && !no_blank_document(
                    text::views(documents@),
                ),
            },
    {
        let ghost all = text::views(documents@);
        let mut vectors: Vec<Vec<(u8, u8)>> = Vec::new();
        let mut i: usize = 0;
        while i < documents.len()
            invariant
                i <= documents@.len(),
                all == text::views(documents@),
                forall|j: int| 0 <= j < i ==> !text::is_blank(#[trigger] all[j]),
                vectors@.len() == i,
                forall|j: int|
                    0 <= j < i ==> (#[trigger] vectors@[j])@ == self.pairs_of(
                        documents@[j]@,
                        j as u64,
                    ),
            decreases documents@.len() - i,
        {
            assert(all[i as int] == documents@[i as int]@);
            if text::blank(&documents[i]) {
                return Err(EmbeddingError::EmptyDocument);
            }
            let pairs = DeterministicBackend::hash_to_vector(
                documents[i].as_str(),
                self.model_revision.as_str(),
                i as u64,
                self.dimensions,
            );
            vectors.push(pairs);
            i = i + 1;
        }
        Ok(vectors)
    }

    /// The hash bytes behind the vector of a query.
    pub fn embed_query(&self, query: &str) -> (r: Result<Vec<(u8, u8)>, EmbeddingError>)
        ensures
            match r {
                Ok(pairs) => !text::is_blank(query@) && pairs@ == self.pairs_of(query@, 0),
                Err(e) => e@ == EmbeddingFault::EmptyQuery && text::is_blank(query@),
            },
    {
        if text::blank(query) {
            return Err(EmbeddingError::EmptyQuery);
        }
        Ok(
            DeterministicBackend::hash_to_vector(
                query,
                self.model_revision.as_str(),
                0,
                self.dimensions,
            ),
        )
    }
}

impl Default for DeterministicBackend {
    fn default() -> (r: DeterministicBackend)
        ensures
            r.model_id@ == "deterministic-hash"@,
            r.model_revision@ == "deterministic-v1"@,
            r.dimensions == 384,
    {
        DeterministicBackend::new()
    }
}

/// None of the documents is blank.
pub open spec fn no_blank_document(documents: Seq<Seq<char>>) -> bool {
    forall|i: int| 0 <= i < documents.len() ==> !text::is_blank(#[trigger] documents[i])
}

/// Checks that no document is blank.
pub fn check_documents(documents: &Vec<String>) -> (r: Result<(), EmbeddingError>)
    ensures
        match r {
            Ok(()) => no_blank_document(text::views(documents@)),
            Err(e) => e@ == EmbeddingFault::EmptyDocument && !no_blank_document(
                text::views(documents@),
            ),
        },
{
    let ghost all = text::views(documents@);
    let mut i: usize = 0;
    while i < documents.len()
        invariant
            i <= documents@.len(),
            all == text::views(documents@),
            forall|j: int| 0 <= j < i ==> !text::is_blank(#[trigger] all[j]),
        decreases documents@.len() - i,
    {
        assert(all[i as int] == documents@[i as int]@);
        if text::blank(&documents[i]) {
            return Err(EmbeddingError::EmptyDocument);
        }
        i = i + 1;
    }
    Ok(())
}

/// Checks that a query is not blank, and trims it.
pub fn check_query(query: &str) -> (r: Result<String, EmbeddingError>)
    ensures
        match r {
            Ok(s) => !text::is_blank(query@) && s@ == text::trimmed(query@),
            Err(e) => e@ == EmbeddingFault::EmptyQuery && text::is_blank(query@),
        },
{
    if text::blank(query) {
        return Err(EmbeddingError::EmptyQuery);
    }
    Ok(text::trim(query))
}

/// A vector as it was received: how wide it is and whether every value is finite.
#[derive(Debug, Clone, Copy, PartialEq, Eq)]
pub struct VectorShape {
    pub width: usize,
    pub finite: bool,
}

/// What is wrong with one vector of a model with the given width.
pub open spec fn shape_fault(shape: VectorShape, dimensions: usize) -> Option<EmbeddingFault> {
    if shape.width != dimensions {
        Some(EmbeddingFault::DimensionMismatch { expected: dimensions, actual: shape.width })
    } else if !shape.finite {
        Some(EmbeddingFault::NonFiniteValue)
    } else {
        None
    }
}

/// What is wrong with the first bad vector, from position `i` on.
pub open spec fn shapes_fault_from(
    shapes: Seq<VectorShape>,
    dimensions: usize,
    i: int,
) -> Option<EmbeddingFault>
    decreases shapes.len() - i,
{
    if i < 0 || i >= shapes.len() {
        None
    } else if shape_fault(shapes[i], dimensions) is Some {
        shape_fault(shapes[i], dimensions)
    } else {
        shapes_fault_from(shapes, dimensions, i + 1)
    }
}

/// Checks the vectors that a backend returned against the width of its model.
pub fn check_embeddings(shapes: &Vec<VectorShape>, dimensions: usize) -> (r: Result<
    (),
    EmbeddingError,
>)
    ensures
        match r {
            Ok(()) => shapes_fault_from(shapes@, dimensions, 0) is None,
            Err(e) => shapes_fault_from(shapes@, dimensions, 0) == Some(e@),
        },
{
    let mut i: usize = 0;
    while i < shapes.len()
        invariant
            i <= shapes@.len(),
            shapes_fault_from(shapes@, dimensions, 0) == shapes_fault_from(
                shapes@,
                dimensions,
                i as int,
            ),
        decreases shapes@.len() - i,
    {
        if shapes[i].width != dimensions {
            return Err(
                EmbeddingError::DimensionMismatch {
                    expected: dimensions,
                    actual: shapes[i].width,
                },
            );
        }
        if !shapes[i].finite {
            return Err(EmbeddingError::NonFiniteValue);
        }
        i = i + 1;
    }
    Ok(())
}

/// The API root that an external backend uses unless told otherwise.
pub const DEFAULT_EXTERNAL_BASE_URL: &'static str = "https://openrouter.ai/api/v1";

/// The variable that holds the key unless told otherwise.
pub const DEFAULT_EXTERNAL_API_KEY_ENV: &'static str = "OPENROUTER_API_KEY";

/// The model that an external backend uses unless told otherwise.
pub const DEFAULT_EXTERNAL_MODEL: &'static str = "openai/text-embedding-3-small";

/// The width of [`DEFAULT_EXTERNAL_MODEL`].
pub const DEFAULT_EXTERNAL_DIMENSIONS: usize = 1536;

/// The seconds that a request may take unless told otherwise.
pub const DEFAULT_TIMEOUT_SECS: u64 = 30;

/// Which backend makes the vectors.
#[derive(Debug, Clone, Copy, PartialEq, Eq, Structural)]
pub enum EmbeddingBackendKind {
    Deterministic,
    External,
    Local,
}

/// The embedding section of the configuration.
#[derive(Debug, Clone, PartialEq, Eq)]
pub struct EmbeddingConfig {
    pub backend: EmbeddingBackendKind,
    pub base_url: Option<String>,
    pub model: Option<String>,
    pub api_key_env: Option<String>,
    pub dimensions: Option<usize>,
    pub model_revision: Option<String>,
    pub timeout_secs: Option<u64>,
    pub headers: Vec<(String, String)>,
}

impl Default for EmbeddingConfig {
    fn default() -> (r: EmbeddingConfig)
        ensures
            r.backend == EmbeddingBackendKind::Deterministic,
            r.base_url is None,
            r.model is None,
            r.api_key_env is None,
            r.dimensions is None,
            r.model_revision is None,
            r.timeout_secs is None,
            r.headers@.len() == 0,
    {
        EmbeddingConfig {
            backend: EmbeddingBackendKind::Deterministic,
            base_url: None,
            model: None,
            api_key_env: None,
            dimensions: None,
            model_revision: None,
            timeout_secs: None,
            headers: Vec::new(),
        }
    }
}

/// A text, or another where there is none.
pub open spec fn text_or(o: Option<String>, other: Seq<char>) -> Seq<char> {
    match o {
        Some(s) => s@,
        None => other,
    }
}

fn owned_or(o: &Option<String>, other: &str) -> (r: String)
    ensures
        r@ == text_or(*o, other@),
{
    match o {
        Some(s) => s.clone(),
        None => other.to_owned(),
    }
}

/// The contents of pairs of texts.
pub open spec fn pair_views(s: Seq<(String, String)>) -> Seq<(Seq<char>, Seq<char>)> {
    s.map_values(|p: (String, String)| (p.0@, p.1@))
}

/// Pairs are ordered by their first text, then by their second.
pub open spec fn pair_order() -> spec_fn((Seq<char>, Seq<char>), (Seq<char>, Seq<char>)) -> bool {
    |a: (Seq<char>, Seq<char>), b: (Seq<char>, Seq<char>)|
        if a.0 == b.0 {
            text::lex_le(a.1, b.1)
        } else {
            text::lex_le(a.0, b.0)
        }
}

proof fn lemma_pair_order_total()
    ensures
        total_ordering(pair_order()),
{
    text::lemma_lex_total_ordering();
    let leq = pair_order();
    let lex = text::lex_order();
    assert forall|a: (Seq<char>, Seq<char>)| #[trigger] leq(a, a) by {
        assert(lex(a.1, a.1));
    }
    assert forall|a: (Seq<char>, Seq<char>), b: (Seq<char>, Seq<char>)|
        #[trigger] leq(a, b) && #[trigger] leq(b, a) implies a == b by {
        if a.0 == b.0 {
            assert(lex(a.1, b.1) && lex(b.1, a.1));
        } else {
            assert(lex(a.0, b.0) && lex(b.0, a.0));
        }
    }
    assert forall|a: (Seq<char>, Seq<char>), b: (Seq<char>, Seq<char>), c: (Seq<char>, Seq<char>)|
        #[trigger] leq(a, b) && #[trigger] leq(b, c) implies leq(a, c) by {
        if a.0 == b.0 && b.0 == c.0 {
            assert(lex(a.1, b.1) && lex(b.1, c.1));
            assert(lex(a.1, c.1));
        } else if a.0 != b.0 && b.0 != c.0 {
            assert(lex(a.0, b.0) && lex(b.0, c.0));
            assert(lex(a.0, c.0));
            if a.0 == c.0 {
                assert(lex(c.0, b.0));
            }
        }
    }
    assert forall|a: (Seq<char>, Seq<char>), b: (Seq<char>, Seq<char>)|
        #[trigger] leq(a, b) || #[trigger] leq(b, a) by {
        assert(lex(a.0, b.0) || lex(b.0, a.0));
        assert(lex(a.1, b.1) || lex(b.1, a.1));
    }
}

fn pair_le(a: &(String, String), b: &(String, String)) -> (r: bool)
    ensures
        r == pair_order()((a.0@, a.1@), (b.0@, b.1@)),
{
    if text::same(&a.0, &b.0) {
        text::text_le(&a.1, &b.1)
    } else {
        text::text_le(&a.0, &b.0)
    }
}

/// Headers in order.
pub open spec fn sorted_pairs(s: Seq<(Seq<char>, Seq<char>)>) -> Seq<(Seq<char>, Seq<char>)> {
    s.sort_by(pair_order())
}

/// Puts headers in order.
pub fn sort_headers(v: &Vec<(String, String)>) -> (r: Vec<(String, String)>)
    ensures
        pair_views(r@) == sorted_pairs(pair_views(v@)),
{
    let ghost all = pair_views(v@);
    let mut out: Vec<(String, String)> = Vec::new();
    let mut i: usize = 0;
    proof {
        assert(pair_views(out@) =~= all.take(0));
    }
    while i < v.len()
        invariant
            i <= v@.len(),
            all == pair_views(v@),
            sorted_by(pair_views(out@), pair_order()),
            pair_views(out@).to_multiset() == all.take(i as int).to_multiset(),
        decreases v@.len() - i,
    {
        let item = (v[i].0.clone(), v[i].1.clone());
        let ghost x = (item.0@, item.1@);
        let ghost before = pair_views(out@);
        let ghost leq = pair_order();
        let mut at: usize = 0;
        while at < out.len() && pair_le(&out[at], &item)
            invariant
                at <= out@.len(),
                before == pair_views(out@),
                x == (item.0@, item.1@),
                leq == pair_order(),
                forall|j: int| 0 <= j < at ==> leq(#[trigger] before[j], x),
            decreases out@.len() - at,
        {
            assert(before[at as int] == (out@[at as int].0@, out@[at as int].1@));
            at = at + 1;
        }
        proof {
            if at < out@.len() {
                assert(before[at as int] == (out@[at as int].0@, out@[at as int].1@));
            }
        }
        out.insert(at, item);
        proof {
            lemma_pair_order_total();
            let after = pair_views(out@);
            assert(after =~= before.insert(at as int, x));
            assert forall|p: int, q: int| 0 <= p < q < after.len() implies #[trigger] leq(
                after[p],
                after[q],
            ) by {
                if q == at {
                    assert(after[p] == before[p]);
                } else if p == at {
                    assert(after[q] == before[q - 1]);
                    assert(leq(x, before[at as int]) || leq(before[at as int], x));
                    if q - 1 > at {
                        assert(leq(before[at as int], before[q - 1]));
                        assert(leq(x, before[q - 1]));
                    }
                } else {
                    let pp = if p < at {
                        p
                    } else {
                        p - 1
                    };
                    let qq = if q < at {
                        q
                    } else {
                        q - 1
                    };
                    assert(after[p] == before[pp]);
                    assert(after[q] == before[qq]);
                    assert(leq(before[pp], before[qq]));
                }
            }
            text::lemma_insert_multiset(before, at as int, x);
            assert(all[i as int] == x);
            assert(all.take(i + 1) =~= all.take(i as int).push(x));
            broadcast use vstd::seq_lib::group_to_multiset_ensures;

        }
        i = i + 1;
    }
    proof {
        assert(all.take(all.len() as int) =~= all);
        lemma_pair_order_total();
        all.lemma_sort_by_ensures(pair_order());
        lemma_sorted_unique(pair_views(out@), sorted_pairs(all), pair_order());
    }
    out
}

/// A backend behind an HTTP interface.
#[derive(Clone, PartialEq, Eq)]
pub struct ExternalBackend {
    pub timeout_secs: u64,
    pub endpoint: String,
    pub api_key: String,
    pub model_id: String,
    pub model_revision: String,
    pub dimensions: usize,
    pub headers: Vec<(String, String)>,
}

/// The model that a configuration names.
pub open spec fn chosen_model(config: EmbeddingConfig) -> Seq<char> {
    text_or(config.model, DEFAULT_EXTERNAL_MODEL@)
}

/// The width that a configuration gives: it is inferred for the default model only.
pub open spec fn chosen_dimensions(config: EmbeddingConfig) -> Option<usize> {
    match config.dimensions {
        Some(n) => Some(n),
        None => if chosen_model(config) == DEFAULT_EXTERNAL_MODEL@ {
            Some(DEFAULT_EXTERNAL_DIMENSIONS)
        } else {
            None
        },
    }
}

/// What is wrong with an external configuration.
pub open spec fn config_fault(config: EmbeddingConfig) -> Option<Seq<char>> {
    match chosen_dimensions(config) {
        None => Some(
            "[embedding] `dimensions` is required for model `"@ + chosen_model(config)
                + "`; it can only be inferred for the default `"@ + DEFAULT_EXTERNAL_MODEL@ + "`"@,
        ),
        Some(n) => if n == 0 {
            Some("[embedding] `dimensions` must be greater than zero"@)
        } else {
            None
        },
    }
}

/// The variable that holds the key.
pub open spec fn key_variable(config: EmbeddingConfig) -> Seq<char> {
    text_or(config.api_key_env, DEFAULT_EXTERNAL_API_KEY_ENV@)
}

/// What is wrong with the value that the environment gave for the key.
pub open spec fn key_fault(config: EmbeddingConfig, found: Option<String>) -> Option<Seq<char>> {
    match found {
        None => Some(
            "environment variable `"@ + key_variable(config)
                + "` (from [embedding] api_key_env) is not set"@,
        ),
        Some(key) => if text::is_blank(key@) {
            Some(
                "environment variable `"@ + key_variable(config)
                    + "` (from [embedding] api_key_env) is empty"@,
            )
        } else {
            None
        },
    }
}

impl ExternalBackend {
    /// The backend that a configuration and a key make.
    pub open spec fn is_made_from(self, config: EmbeddingConfig, key: Seq<char>) -> bool {
        &&& self.timeout_secs == match config.timeout_secs {
            Some(n) => n,
            None => DEFAULT_TIMEOUT_SECS,
        }
        &&& self.endpoint@ == text::without_trailing(
            text_or(config.base_url, DEFAULT_EXTERNAL_BASE_URL@),
            '/',
        ) + "/embeddings"@
        &&& self.api_key@ == key
        &&& self.model_id@ == chosen_model(config)
        &&& self.model_revision@ == text_or(config.model_revision, chosen_model(config))
        &&& Some(self.dimensions) == chosen_dimensions(config)
        &&& pair_views(self.headers@) == sorted_pairs(pair_views(config.headers@))
    }

    /// The name of the variable that holds the key.
    pub fn api_key_variable(config: &EmbeddingConfig) -> (r: String)
        ensures
            r@ == key_variable(*config),
    {
        owned_or(&config.api_key_env, DEFAULT_EXTERNAL_API_KEY_ENV)
    }

    /// Builds a backend from the configuration and from what the environment holds
    /// under the variable that [`ExternalBackend::api_key_variable`] names.
    pub fn from_config(config: &EmbeddingConfig, found: Option<String>) -> (r: Result<
        ExternalBackend,
        EmbeddingError,
    >)
        ensures
            match r {
                Ok(b) => {
                    &&& key_fault(*config, found) is None
                    &&& config_fault(*config) is None
                    &&& b.is_made_from(*config, found->0@)
                },
                Err(e) => if key_fault(*config, found) is Some {
                    e@ == EmbeddingFault::InvalidConfiguration(key_fault(*config, found)->0)
                } else {
                    &&& config_fault(*config) is Some
                    &&& e@ == EmbeddingFault::InvalidConfiguration(config_fault(*config)->0)
                },
            },
    {
        let variable = ExternalBackend::api_key_variable(config);
        match found {
            None => Err(
                EmbeddingError::InvalidConfiguration(
                    text::join3(
                        "environment variable `",
                        &variable,
                        "` (from [embedding] api_key_env) is not set",
                    ),
                ),
            ),
            Some(key) => {
                if text::blank(&key) {
                    return Err(
                        EmbeddingError::InvalidConfiguration(
                            text::join3(
                                "environment variable `",
                                &variable,
                                "` (from [embedding] api_key_env) is empty",
                            ),
                        ),
                    );
                }
                ExternalBackend::from_config_with_key(config, key)
            },
        }
    }

    /// Builds a backend from the configuration and a key.
    pub fn from_config_with_key(config: &EmbeddingConfig, api_key: String) -> (r: Result<
        ExternalBackend,
        EmbeddingError,
    >)
        ensures
            match r {
                Ok(b) => config_fault(*config) is None && b.is_made_from(*config, api_key@),
                Err(e) => {
                    &&& config_fault(*config) is Some
                    &&& e@ == EmbeddingFault::InvalidConfiguration(config_fault(*config)->0)
                },
            },
    {
        let base_url = owned_or(&config.base_url, DEFAULT_EXTERNAL_BASE_URL);
        let model_id = owned_or(&config.model, DEFAULT_EXTERNAL_MODEL);
        let dimensions: usize = match config.dimensions {
            Some(n) => n,
            None => {
                if !text::same(&model_id, DEFAULT_EXTERNAL_MODEL) {
                    let mut message = text::join3(
                        "[embedding] `dimensions` is required for model `",
                        &model_id,
                        "`; it can only be inferred for the default `",
                    );
                    message.append(DEFAULT_EXTERNAL_MODEL);
                    message.append("`");
                    return Err(EmbeddingError::InvalidConfiguration(message));
                }
                DEFAULT_EXTERNAL_DIMENSIONS
            },
        };
        if dimensions == 0 {
            return Err(
                EmbeddingError::InvalidConfiguration(
                    "[embedding] `dimensions` must be greater than zero".to_owned(),
                ),
            );
        }
        let timeout_secs: u64 = match config.timeout_secs {
            Some(n) => n,
            None => DEFAULT_TIMEOUT_SECS,
        };
        let root = text::strip_trailing(&base_url, '/');
        let endpoint = text::join2(&root, "/embeddings");
        let model_revision = owned_or(&config.model_revision, &model_id);
        let headers = sort_headers(&config.headers);
        Ok(
            ExternalBackend {
                timeout_secs,
                endpoint,
                api_key,
                model_id,
                model_revision,
                dimensions,
                headers,
            },
        )
    }

    pub fn model_id(&self) -> (r: &str)
        ensures
            r@ == self.model_id@,
    {
        self.model_id.as_str()
    }

    pub fn model_revision(&self) -> (r: &str)
        ensures
            r@ == self.model_revision@,
    {
        self.model_revision.as_str()
    }

    pub fn dimensions(&self) -> (r: usize)
        ensures
            r == self.dimensions,
    {
        self.dimensions
    }

    pub fn normalized(&self) -> (r: bool)
        ensures
            r,
    {
        true
    }

    /// The body of a request for the vectors of the inputs.
    pub fn request_body(&self, inputs: &Vec<String>) -> (r: JsonValue)
        ensures
            r@ == Json::Object(
                seq![
                    ("model"@, Json::Text(self.model_id@)),
                    (
                        "input"@,
                        Json::Array(
                            text::views(inputs@).map_values(|s: Seq<char>| Json::Text(s)),
                        ),
                    ),
                ],
            ),
    {
        let ghost wanted = text::views(inputs@).map_values(|s: Seq<char>| Json::Text(s));
        let mut items: Vec<JsonValue> = Vec::new();
        let mut i: usize = 0;
        while i < inputs.len()
            invariant
                i <= inputs@.len(),
                wanted == text::views(inputs@).map_values(|s: Seq<char>| Json::Text(s)),
                json::json_views(items@) =~= wanted.take(i as int),
            decreases inputs@.len() - i,
        {
            let ghost before = json::json_views(items@);
            let item = JsonValue::Text(inputs[i].clone());
            assert(item@ == wanted[i as int]);
            items.push(item);
            assert(json::json_views(items@) =~= before.push(item@));
            i = i + 1;
        }
        assert(wanted.take(wanted.len() as int) =~= wanted);
        let mut entries: Vec<(String, JsonValue)> = Vec::new();
        entries.push(("model".to_owned(), JsonValue::Text(self.model_id.clone())));
        proof {
            json::lemma_array_view(items);
        }
        entries.push(("input".to_owned(), JsonValue::Array(items)));
        proof {
            json::lemma_object_view(entries);
            assert(json::entry_views(entries@) =~= seq![
                ("model"@, Json::Text(self.model_id@)),
                ("input"@, Json::Array(wanted)),
            ]);
        }
        JsonValue::Object(entries)
    }
}

/// One entry of an answer to a request for vectors. A vector is held by the bits of
/// its values.
#[derive(Debug, Clone, PartialEq, Eq)]
pub struct ResponseEntry {
    pub index: Option<u64>,
    pub vector: ResponseVector,
}

/// The vector of an entry.
#[derive(Debug, Clone, PartialEq, Eq)]
pub enum ResponseVector {
    /// The entry has no array of values.
    Missing,
    /// A value is not a number, or not finite.
    NonFinite,
    /// The values, as many as `width`, scaled to unit norm where that is possible.
    Numbers { width: usize, normalized: Option<Vec<u32>> },
}

/// The input that an entry at a position answers.
pub open spec fn answered_index(entry: ResponseEntry, position: int) -> int {
    match entry.index {
        Some(n) => n as int,
        None => position,
    }
}

/// What is wrong with the entry at position `i`, where those before it have filled
/// the given places.
pub open spec fn entry_fault(
    entries: Seq<ResponseEntry>,
    i: int,
    inputs: nat,
    dimensions: usize,
) -> Option<EmbeddingFault> {
    let entry = entries[i];
    let index = answered_index(entry, i);
    if index >= inputs {
        Some(
            EmbeddingFault::RequestFailed(
                "response index "@ + text::decimal(index as nat) + " out of range"@,
            ),
        )
    } else {
        match entry.vector {
            ResponseVector::Missing => Some(
                EmbeddingFault::RequestFailed("response entry has no `embedding`"@),
            ),
            ResponseVector::NonFinite => Some(EmbeddingFault::NonFiniteValue),
            ResponseVector::Numbers { width, normalized } => if width != dimensions {
                Some(EmbeddingFault::DimensionMismatch { expected: dimensions, actual: width })
            } else if exists|j: int|
                0 <= j < i && #[trigger] answered_index(entries[j], j) == index {
                Some(
                    EmbeddingFault::RequestFailed(
                        "response repeated index "@ + text::decimal(index as nat),
                    ),
                )
            } else if normalized is None {
                Some(EmbeddingFault::NonFiniteValue)
            } else {
                None
            },
        }
    }
}

/// The fault of the first faulty entry, from position `i` on.
pub open spec fn entries_fault_from(
    entries: Seq<ResponseEntry>,
    i: int,
    inputs: nat,
    dimensions: usize,
) -> Option<EmbeddingFault>
    decreases entries.len() - i,
{
    if i < 0 || i >= entries.len() {
        None
    } else if entry_fault(entries, i, inputs, dimensions) is Some {
        entry_fault(entries, i, inputs, dimensions)
    } else {
        entries_fault_from(entries, i + 1, inputs, dimensions)
    }
}

/// What is wrong with an answer; `None` stands for one without a list of entries.
pub open spec fn response_fault(
    data: Option<Vec<ResponseEntry>>,
    inputs: usize,
    dimensions: usize,
) -> Option<EmbeddingFault> {
    match data {
        None => Some(EmbeddingFault::RequestFailed("response has no `data` array"@)),
        Some(entries) => if entries@.len() != inputs {
            Some(
                EmbeddingFault::RequestFailed(
                    "expected "@ + text::decimal(inputs as nat) + " embeddings, got "@
                        + text::decimal(entries@.len()),
                ),
            )
        } else {
            entries_fault_from(entries@, 0, inputs as nat, dimensions)
        },
    }
}

/// Every vector stands at the place that its entry names.
pub open spec fn placed_by_index(entries: Seq<ResponseEntry>, vectors: Seq<Vec<u32>>) -> bool {
    &&& vectors.len() == entries.len()
    &&& forall|i: int|
        0 <= i < entries.len() ==> {
            &&& 0 <= #[trigger] answered_index(entries[i], i) < vectors.len()
            &&& entries[i].vector matches ResponseVector::Numbers { normalized: Some(v), .. }
                && vectors[answered_index(entries[i], i)]@ == v@
        }
}

proof fn lemma_entries_pass(
    entries: Seq<ResponseEntry>,
    i: int,
    inputs: nat,
    dimensions: usize,
    k: int,
)
    requires
        entries_fault_from(entries, i, inputs, dimensions) is None,
        0 <= i <= k < entries.len(),
    ensures
        entry_fault(entries, k, inputs, dimensions) is None,
    decreases k - i,
{
    if i < k {
        lemma_entries_pass(entries, i + 1, inputs, dimensions, k);
    }
}

/// Distinct values below a bound, as many as the bound, are all the values below it.
proof fn lemma_all_places_filled(places: Seq<int>, n: nat, k: int)
    requires
        places.len() == n,
        places.no_duplicates(),
        forall|i: int| 0 <= i < places.len() ==> 0 <= #[trigger] places[i] < n,
        0 <= k < n,
    ensures
        places.contains(k),
{
    let all = vstd::set_lib::set_int_range(0, n as int);
    vstd::set_lib::lemma_int_range(0, n as int);
    places.unique_seq_to_set();
    assert(places.to_set().subset_of(all)) by {
        assert forall|x: int| places.to_set().contains(x) implies all.contains(x) by {
            let i = choose|i: int| 0 <= i < places.len() && places[i] == x;
            assert(places[i] == x);
        }
    }
    vstd::set_lib::lemma_subset_equality(places.to_set(), all);
    assert(all.contains(k));
    assert(places.to_set().contains(k));
}

/// Checks the entries of an answer and puts each vector where its entry says it
/// belongs; the order of the entries does not matter.
pub fn place_vectors(data: Option<Vec<ResponseEntry>>, inputs: usize, dimensions: usize) -> (r:
    Result<Vec<Vec<u32>>, EmbeddingError>)
    ensures
        match r {
            Ok(vectors) => {
                &&& response_fault(data, inputs, dimensions) is None
                &&& placed_by_index(data->0@, vectors@)
            },
            Err(e) => response_fault(data, inputs, dimensions) == Some(e@),
        },
{
    let entries = match data {
        None => {
            return Err(EmbeddingError::RequestFailed("response has no `data` array".to_owned()));
        },
        Some(entries) => entries,
    };
    if entries.len() != inputs {
        let wanted = text::render_u64(inputs as u64);
        let got = text::render_u64(entries.len() as u64);
        let mut message = text::join3("expected ", &wanted, " embeddings, got ");
        message.append(&got);
        return Err(EmbeddingError::RequestFailed(message));
    }
    let ghost places = Seq::new(inputs as nat, |i: int| answered_index(entries@[i], i));
    let mut ordered: Vec<Option<Vec<u32>>> = Vec::new();
    let mut n: usize = 0;
    while n < inputs
        invariant
            n <= inputs,
            ordered@.len() == n,
            forall|k: int| 0 <= k < n ==> #[trigger] ordered@[k] is None,
        decreases inputs - n,
    {
        ordered.push(None);
        n = n + 1;
    }
    let mut i: usize = 0;
    while i < entries.len()
        invariant
            i <= entries@.len(),
            entries@.len() == inputs,
            ordered@.len() == inputs,
            places == Seq::new(inputs as nat, |j: int| answered_index(entries@[j], j)),
            response_fault(data, inputs, dimensions) == entries_fault_from(
                entries@,
                i as int,
                inputs as nat,
                dimensions,
            ),
            forall|j: int|
                0 <= j < i ==> {
                    &&& 0 <= #[trigger] places[j] < inputs
                    &&& entries@[j].vector matches ResponseVector::Numbers {
                        normalized: Some(v),
                        ..
                    } && ordered@[places[j]] is Some && ordered@[places[j]]->0@ == v@
                },
            forall|j: int, k: int| 0 <= j < k < i ==> places[j] != places[k],
            forall|k: int|
                0 <= k < inputs && (#[trigger] ordered@[k]) is Some ==> exists|j: int|
                    0 <= j < i && #[trigger] places[j] == k,
        decreases entries@.len() - i,
    {
        let entry = &entries[i];
        let reported: u64 = match entry.index {
            Some(n) => n,
            None => i as u64,
        };
        assert(reported == places[i as int]);
        if reported >= inputs as u64 {
            let shown = text::render_u64(reported);
            return Err(
                EmbeddingError::RequestFailed(
                    text::join3("response index ", &shown, " out of range"),
                ),
            );
        }
        let index: usize = reported as usize;
        match &entry.vector {
            ResponseVector::Missing => {
                return Err(
                    EmbeddingError::RequestFailed("response entry has no `embedding`".to_owned()),
                );
            },
            ResponseVector::NonFinite => {
                return Err(EmbeddingError::NonFiniteValue);
            },
            ResponseVector::Numbers { width, normalized } => {
                if *width != dimensions {
                    return Err(
                        EmbeddingError::DimensionMismatch { expected: dimensions, actual: *width },
                    );
                }
                if ordered[index].is_some() {
                    let shown = text::render_u64(reported);
                    proof {
                        let j = choose|j: int| 0 <= j < i && #[trigger] places[j] == index;
                        assert(answered_index(entries@[j], j) == index);
                    }
                    return Err(
                        EmbeddingError::RequestFailed(
                            text::join2("response repeated index ", &shown),
                        ),
                    );
                }
                proof {
                    assert forall|j: int| 0 <= j < i implies #[trigger] answered_index(
                        entries@[j],
                        j,
                    ) != index by {
                        assert(places[j] == answered_index(entries@[j], j));
                    }
                }
                match normalized {
                    None => {
                        return Err(EmbeddingError::NonFiniteValue);
                    },
                    Some(values) => {
                        let ghost before = ordered@;
                        let copy = copy_bits(values);
                        ordered.set(index, Some(copy));
                        proof {
                            assert(places[i as int] == index);
                            assert forall|j: int| 0 <= j < i + 1 implies {
                                &&& 0 <= #[trigger] places[j] < inputs
                                &&& entries@[j].vector matches ResponseVector::Numbers {
                                    normalized: Some(v),
                                    ..
                                } && ordered@[places[j]] is Some && ordered@[places[j]]->0@ == v@
                            } by {
                                if j < i {
                                    assert(places[j] != index);
                                    assert(ordered@[places[j]] == before[places[j]]);
                                }
                            }
                            assert forall|k: int|
                                0 <= k < inputs && (
                                #[trigger] ordered@[k]) is Some implies exists|j: int|
                                0 <= j < i + 1 && #[trigger] places[j] == k by {
                                if k != index {
                                    assert(before[k] is Some);
                                    let j = choose|j: int| 0 <= j < i && #[trigger] places[j] == k;
                                    assert(places[j] == k);
                                } else {
                                    assert(places[i as int] == k);
                                }
                            }
                        }
                    },
                }
            },
        }
        i = i + 1;
    }
    proof {
        assert(places.no_duplicates());
    }
    let mut out: Vec<Vec<u32>> = Vec::new();
    let mut rest = ordered;
    let ghost full = rest@;
    let ghost mut k: int = 0;
    proof {
        assert(full.skip(0) =~= full);
    }
    while rest.len() > 0
        invariant
            0 <= k <= inputs,
            full.len() == inputs,
            places.len() == inputs,
            places.no_duplicates(),
            rest@ == full.skip(k),
            out@.len() == k,
            forall|j: int| 0 <= j < inputs ==> 0 <= #[trigger] places[j] < inputs,
            forall|j: int| 0 <= j < inputs ==> full[#[trigger] places[j]] is Some,
            forall|j: int| 0 <= j < k ==> full[j] == Some(#[trigger] out@[j]),
        decreases rest@.len(),
    {
        proof {
            lemma_all_places_filled(places, inputs as nat, k);
            let j = places.index_of(k);
            assert(full[places[j]] is Some);
            assert(rest@[0] == full[k]);
        }
        let ghost before = out@;
        let next = rest.remove(0);
        assert(next == full[k]);
        match next {
            Some(vector) => {
                out.push(vector);
                assert(out@ =~= before.push(vector));
            },
            None => {},
        }
        proof {
            assert forall|j: int| 0 <= j < k + 1 implies full[j] == Some(#[trigger] out@[j]) by {
                if j < k {
                    assert(out@[j] == before[j]);
                }
            }
            assert(rest@ =~= full.skip(k + 1));
            k = k + 1;
        }
    }
    proof {
        assert forall|j: int| 0 <= j < entries@.len() implies {
            &&& 0 <= #[trigger] answered_index(entries@[j], j) < out@.len()
            &&& entries@[j].vector matches ResponseVector::Numbers { normalized: Some(v), .. }
                && out@[answered_index(entries@[j], j)]@ == v@
        } by {
            assert(places[j] == answered_index(entries@[j], j));
        }
    }
    Ok(out)
}

fn copy_bits(values: &Vec<u32>) -> (r: Vec<u32>)
    ensures
        r@ == values@,
{
    let mut out: Vec<u32> = Vec::new();
    let mut i: usize = 0;
    while i < values.len()
        invariant
            i <= values@.len(),
            out@ == values@.take(i as int),
        decreases values@.len() - i,
    {
        out.push(values[i]);
        assert(values@.take(i + 1) =~= values@.take(i as int).push(values@[i as int]));
        i = i + 1;
    }
    assert(values@.take(values@.len() as int) =~= values@);
    out
}

/// An accepted answer fills every place: for each input there is an entry that
/// names it.
pub proof fn law_every_input_is_answered(
    entries: Seq<ResponseEntry>,
    dimensions: usize,
    input: int,
)
    requires
        entries_fault_from(entries, 0, entries.len(), dimensions) is None,
        0 <= input < entries.len(),
    ensures
        exists|i: int|
            0 <= i < entries.len() && #[trigger] answered_index(entries[i], i) == input,
{
    let n = entries.len();
    let places = Seq::new(n, |i: int| answered_index(entries[i], i));
    assert forall|i: int| 0 <= i < n implies 0 <= #[trigger] places[i] < n by {
        lemma_entries_pass(entries, 0, n, dimensions, i);
    }
    assert forall|i: int, j: int| 0 <= i < j < n implies places[i] != places[j] by {
        lemma_entries_pass(entries, 0, n, dimensions, j);
        assert(answered_index(entries[i], i) == places[i]);
    }
    assert(places.no_duplicates());
    lemma_all_places_filled(places, n, input);
    let i = places.index_of(input);
    assert(answered_index(entries[i], i) == input);
}

/// One word of an error text, with an address taken out.
pub open spec fn redacted_word(word: Seq<char>) -> Seq<char> {
    if text::occurs(word, "://"@) {
        "<url>"@
    } else {
        word
    }
}

/// The words of an error text, with the addresses taken out.
pub open spec fn redacted_words(words: Seq<Seq<char>>) -> Seq<Seq<char>> {
    words.map_values(|w: Seq<char>| redacted_word(w))
}

/// An error text with its addresses taken out.
pub open spec fn redacted(s: Seq<char>) -> Seq<char> {
    text::joined(redacted_words(text::words(s)), " "@)
}

fn redact_word(word: &str) -> (r: String)
    ensures
        r@ == redacted_word(word@),
{
    if text::contains_part(word, "://") {
        "<url>".to_owned()
    } else {
        word.to_owned()
    }
}

/// Takes every address out of an error text, so that an endpoint that carries a key
/// cannot reach a log.
pub fn redact_url(message: &str) -> (r: String)
    ensures
        r@ == redacted(message@),
{
    let words = text::split_words(message);
    let ghost given = text::words(message@);
    let mut out: Vec<String> = Vec::new();
    let mut i: usize = 0;
    assert(text::views(out@) =~= redacted_words(given).take(0));
    while i < words.len()
        invariant
            i <= words@.len(),
            text::views(words@) == given,
            text::views(out@) == redacted_words(given).take(i as int),
        decreases words@.len() - i,
    {
        let ghost before = text::views(out@);
        let word = redact_word(&words[i]);
        proof {
            assert(given[i as int] == words@[i as int]@);
            assert(redacted_words(given)[i as int] == word@);
        }
        out.push(word);
        proof {
            assert(text::views(out@) =~= before.push(word@));
            assert(redacted_words(given).take(i + 1) =~= before.push(word@));
        }
        i = i + 1;
    }
    assert(redacted_words(given).take(given.len() as int) =~= redacted_words(given));
    text::join(&out, " ")
}

proof fn lemma_occurs_across(a: Seq<char>, b: Seq<char>, part: Seq<char>)
    requires
        !part.contains(' '),
        part.len() > 0,
        !text::occurs(a, part),
        !text::occurs(b, part),
    ensures
        !text::occurs(a + " "@ + b, part),
{
    reveal_strlit(" ");
    let all = a + " "@ + b;
    if text::occurs(all, part) {
        let at = choose|at: int| #[trigger] text::occurs_at(all, part, at);
        let n = a.len() as int;
        let found = all.subrange(at, at + part.len());
        if at <= n < at + part.len() {
            assert(found[n - at] == all[n]);
            assert(part.contains(' '));
        } else if at + part.len() <= n {
            assert(a.subrange(at, at + part.len()) =~= part);
            assert(text::occurs_at(a, part, at));
        } else {
            assert(b.subrange(at - n - 1, at - n - 1 + part.len()) =~= part);
            assert(text::occurs_at(b, part, at - n - 1));
        }
    }
}

proof fn lemma_joined_lacks(words: Seq<Seq<char>>, part: Seq<char>)
    requires
        !part.contains(' '),
        part.len() > 0,
        forall|i: int| 0 <= i < words.len() ==> !text::occurs(#[trigger] words[i], part),
    ensures
        !text::occurs(text::joined(words, " "@), part),
    decreases words.len(),
{
    if words.len() == 0 {
        let none = text::joined(words, " "@);
        assert forall|at: int| !(#[trigger] text::occurs_at(none, part, at)) by {}
    } else if words.len() > 1 {
        let init = words.drop_last();
        assert forall|i: int| 0 <= i < init.len() implies !text::occurs(
            #[trigger] init[i],
            part,
        ) by {
            assert(init[i] == words[i]);
        }
        lemma_joined_lacks(init, part);
        assert(words.last() == words[words.len() - 1]);
        lemma_occurs_across(text::joined(init, " "@), words.last(), part);
    }
}

/// No address is left in a redacted error text.
pub proof fn law_redaction_leaves_no_address(s: Seq<char>)
    ensures
        !text::occurs(redacted(s), "://"@),
{
    reveal_strlit("://");
    reveal_strlit("<url>");
    let all = redacted_words(text::words(s));
    assert forall|i: int| 0 <= i < all.len() implies !text::occurs(#[trigger] all[i], "://"@) by {
        let url = "<url>"@;
        assert(all[i] == redacted_word(text::words(s)[i]));
        assert forall|at: int| !(#[trigger] text::occurs_at(url, "://"@, at)) by {
            if text::occurs_at(url, "://"@, at) {
                assert(url.subrange(at, at + 3)[0] == url[at]);
            }
        }
    }
    assert(!"://"@.contains(' '));
    lemma_joined_lacks(all, "://"@);
}

/// An entry of an answer as it was written: the input that it names and the list of
/// its values, where it has them.
pub struct WrittenEntry<'a> {
    pub index: Option<u64>,
    pub values: Option<&'a Vec<JsonValue>>,
}

/// The contents of a [`WrittenEntry`].
#[verifier::ext_equal]
pub struct WrittenModel {
    pub index: Option<u64>,
    pub values: Option<Seq<Json>>,
}

impl<'a> View for WrittenEntry<'a> {
    type V = WrittenModel;

    open spec fn view(&self) -> WrittenModel {
        WrittenModel {
            index: self.index,
            values: match self.values {
                Some(values) => Some(json::json_views(values@)),
                None => None,
            },
        }
    }
}

/// The list that a value is, if it is one.
pub open spec fn listed(value: Option<Json>) -> Option<Seq<Json>> {
    match value {
        Some(Json::Array(items)) => Some(items),
        _ => None,
    }
}

/// One entry of an answer, as it was written.
pub open spec fn written_entry(value: Json) -> WrittenModel {
    WrittenModel {
        index: match json::member(value, "index"@) {
            Some(Json::Unsigned(n)) => Some(n),
            _ => None,
        },
        values: listed(json::member(value, "embedding"@)),
    }
}

/// The entries of an answer; there are none where it holds no list of them.
pub open spec fn written_entries(payload: Json) -> Option<Seq<WrittenModel>> {
    match listed(json::member(payload, "data"@)) {
        Some(items) => Some(items.map_values(|v: Json| written_entry(v))),
        None => None,
    }
}

fn find_list<'a>(value: &'a JsonValue, key: &str) -> (r: Option<&'a Vec<JsonValue>>)
    ensures
        match r {
            Some(items) => listed(json::member(value@, key@)) == Some(json::json_views(items@)),
            None => listed(json::member(value@, key@)) is None,
        },
{
    match json::find_member(value, key) {
        Some(found) => match found {
            JsonValue::Array(items) => {
                proof {
                    json::lemma_array_view(*items);
                }
                Some(items)
            },
            _ => None,
        },
        None => None,
    }
}

fn read_entry<'a>(value: &'a JsonValue) -> (r: WrittenEntry<'a>)
    ensures
        r@ == written_entry(value@),
{
    let index = match json::find_member(value, "index") {
        Some(found) => match found {
            JsonValue::Unsigned(n) => Some(*n),
            _ => None,
        },
        None => None,
    };
    WrittenEntry { index, values: find_list(value, "embedding") }
}

/// The contents of a list of entries.
pub open spec fn written_views(entries: Seq<WrittenEntry>) -> Seq<WrittenModel> {
    entries.map_values(|e: WrittenEntry| e@)
}

/// Reads the entries of an answer.
pub fn read_entries<'a>(payload: &'a JsonValue) -> (r: Option<Vec<WrittenEntry<'a>>>)
    ensures
        match r {
            Some(entries) => written_entries(payload@) == Some(written_views(entries@)),
            None => written_entries(payload@) is None,
        },
{
    match find_list(payload, "data") {
        None => None,
        Some(items) => {
            let ghost wanted = json::json_views(items@).map_values(|v: Json| written_entry(v));
            let mut entries: Vec<WrittenEntry<'a>> = Vec::new();
            let mut i: usize = 0;
            while i < items.len()
                invariant
                    i <= items@.len(),
                    wanted == json::json_views(items@).map_values(|v: Json| written_entry(v)),
                    written_views(entries@) =~= wanted.take(i as int),
                decreases items@.len() - i,
            {
                let ghost before = written_views(entries@);
                let entry = read_entry(&items[i]);
                assert(entry@ == wanted[i as int]);
                entries.push(entry);
                assert(written_views(entries@) =~= before.push(entry@));
                i = i + 1;
            }
            assert(wanted.take(items@.len() as int) =~= wanted);
            Some(entries)
        },
    }
}

/// What came of a request: it failed on the way, it was answered with a status that
/// is no success, its answer is no document, or it holds these entries.
#[derive(Debug, Clone, PartialEq, Eq)]
pub enum EndpointAnswer {
    Failed(String),
    Status(String),
    Unreadable(String),
    Entries(Option<Vec<ResponseEntry>>),
}

/// What is wrong with what came of a request. An error text is reported without the
/// addresses in it, and of a refusal nothing but the status.
pub open spec fn request_fault(
    answer: EndpointAnswer,
    inputs: usize,
    dimensions: usize,
) -> Option<EmbeddingFault> {
    match answer {
        EndpointAnswer::Failed(message) => Some(
            EmbeddingFault::RequestFailed(redacted(message@)),
        ),
        EndpointAnswer::Status(status) => Some(
            EmbeddingFault::RequestFailed("embeddings endpoint returned HTTP "@ + status@),
        ),
        EndpointAnswer::Unreadable(message) => Some(
            EmbeddingFault::RequestFailed(redacted(message@)),
        ),
        EndpointAnswer::Entries(data) => response_fault(data, inputs, dimensions),
    }
}

/// The vectors that a request brought, or why there are none. Nothing is asked for
/// where there are no inputs.
pub open spec fn request_concludes(
    answer: EndpointAnswer,
    inputs: usize,
    dimensions: usize,
    r: Result<Vec<Vec<u32>>, EmbeddingError>,
) -> bool {
    if inputs == 0 {
        r is Ok && r->Ok_0@.len() == 0
    } else {
        match r {
            Ok(vectors) => {
                &&& request_fault(answer, inputs, dimensions) is None
                &&& answer is Entries
                &&& answer->Entries_0 is Some
                &&& placed_by_index(answer->Entries_0->0@, vectors@)
            },
            Err(e) => request_fault(answer, inputs, dimensions) == Some(e@),
        }
    }
}

impl ExternalBackend {
    /// Concludes a request for the vectors of some inputs.
    pub fn request(&self, inputs: usize, answer: EndpointAnswer) -> (r: Result<
        Vec<Vec<u32>>,
        EmbeddingError,
    >)
        ensures
            request_concludes(answer, inputs, self.dimensions, r),
    {
        if inputs == 0 {
            return Ok(Vec::new());
        }
        match answer {
            EndpointAnswer::Failed(message) => Err(
                EmbeddingError::RequestFailed(redact_url(&message)),
            ),
            EndpointAnswer::Status(status) => Err(
                EmbeddingError::RequestFailed(
                    text::join2("embeddings endpoint returned HTTP ", &status),
                ),
            ),
            EndpointAnswer::Unreadable(message) => Err(
                EmbeddingError::RequestFailed(redact_url(&message)),
            ),
            EndpointAnswer::Entries(data) => place_vectors(data, inputs, self.dimensions),
        }
    }

    /// Concludes a request for the vectors of documents; none is sent for a blank one.
    pub fn embed_documents(&self, documents: &Vec<String>, answer: EndpointAnswer) -> (r: Result<
        Vec<Vec<u32>>,
        EmbeddingError,
    >)
        ensures
            if no_blank_document(text::views(documents@)) {
                request_concludes(answer, documents.len(), self.dimensions, r)
            } else {
                r is Err && r->Err_0@ == EmbeddingFault::EmptyDocument
            },
    {
        match check_documents(documents) {
            Err(e) => Err(e),
            Ok(()) => self.request(documents.len(), answer),
        }
    }

    /// Concludes a request for the vector of a query; none is sent for a blank one.
    pub fn embed_query(&self, query: &str, answer: EndpointAnswer) -> (r: Result<
        Vec<u32>,
        EmbeddingError,
    >)
        ensures
            if text::is_blank(query@) {
                r is Err && r->Err_0@ == EmbeddingFault::EmptyQuery
            } else {
                match r {
                    Ok(vector) => {
                        &&& request_fault(answer, 1, self.dimensions) is None
                        &&& answer is Entries
                        &&& answer->Entries_0 is Some
                        &&& answer->Entries_0->0@.len() == 1
                        &&& answer->Entries_0->0@[0].vector matches ResponseVector::Numbers {
                            normalized: Some(v),
                            ..
                        } && vector@ == v@
                    },
                    Err(e) => request_fault(answer, 1, self.dimensions) == Some(e@),
                }
            },
    {
        if text::blank(query) {
            return Err(EmbeddingError::EmptyQuery);
        }
        match self.request(1, answer) {
            Err(e) => Err(e),
            Ok(mut vectors) => {
                proof {
                    let entries = answer->Entries_0->0@;
                    assert(answered_index(entries[0], 0) == 0);
                }
                Ok(vectors.remove(0))
            },
        }
    }
}

/// What is known of an embedding model.
#[derive(Debug, Clone, PartialEq, Eq)]
pub struct ModelMetadata {
    pub model_id: String,
    pub model_revision: String,
    pub dimensions: usize,
    pub normalized: bool,
}

/// What is wrong with the metadata of a model.
pub open spec fn metadata_fault(m: ModelMetadata) -> Option<Seq<char>> {
    if m.dimensions == 0 {
        Some("backend reports zero dimensions"@)
    } else if m.model_revision@.len() == 0 {
        Some(
            "backend reports an empty model revision, which would make stored vectors impossible to invalidate"@,
        )
    } else {
        None
    }
}

impl ModelMetadata {
    /// Checks what a backend says of its model.
    pub fn validate(&self) -> (r: Result<(), EmbeddingError>)
        ensures
            match metadata_fault(*self) {
                None => r is Ok,
                Some(s) => r is Err && r->Err_0@ == EmbeddingFault::InvalidConfiguration(s),
            },
    {
        if self.dimensions == 0 {
            return Err(
                EmbeddingError::InvalidConfiguration("backend reports zero dimensions".to_owned()),
            );
        }
        if self.model_revision.as_str().is_empty() {
            return Err(
                EmbeddingError::InvalidConfiguration(
                    "backend reports an empty model revision, which would make stored vectors impossible to invalidate".to_owned(),
                ),
            );
        }
        Ok(())
    }
}

/// The backend that a configuration asks for; there is none for a local model in a
/// build without one.
pub fn choose_backend(config: Option<&EmbeddingConfig>, local_available: bool) -> (r: Result<
    EmbeddingBackendKind,
    EmbeddingError,
>)
    ensures
        match config {
            None => r == Ok::<EmbeddingBackendKind, EmbeddingError>(
                EmbeddingBackendKind::Deterministic,
            ),
            Some(c) => if c.backend == EmbeddingBackendKind::Local && !local_available {
                r is Err && r->Err_0@ == EmbeddingFault::InvalidConfiguration(
                    "[embedding] backend = \"local\" requires the `skills-embed` build feature; rebuild with it or use backend = \"external\""@,
                )
            } else {
                r == Ok::<EmbeddingBackendKind, EmbeddingError>(c.backend)
            },
        },
{
    match config {
        None => Ok(EmbeddingBackendKind::Deterministic),
        Some(c) => match c.backend {
            EmbeddingBackendKind::Local => {
                if local_available {
                    Ok(EmbeddingBackendKind::Local)
                } else {
                    Err(
                        EmbeddingError::InvalidConfiguration(
                            "[embedding] backend = \"local\" requires the `skills-embed` build feature; rebuild with it or use backend = \"external\"".to_owned(),
                        ),
                    )
                }
            },
            other => Ok(other),
        },
    }
}

/// The key under which the vector of a query is kept.
pub open spec fn query_key(revision: Seq<char>, query: Seq<char>) -> Seq<char> {
    revision + ":"@ + digest::hex(
        digest::sha256(vstd::utf8::encode_utf8(text::trimmed(query))),
    )
}

/// Makes the key under which the vector of a query is kept.
pub fn cache_key(model_revision: &str, query: &str) -> (r: String)
    ensures
        r@ == query_key(model_revision@, query@),
{
    let trimmed = text::trim(query);
    let mut bytes: Vec<u8> = Vec::new();
    digest::push_bytes(&mut bytes, trimmed.as_str().as_bytes());
    assert(bytes@ =~= vstd::utf8::encode_utf8(trimmed@));
    let hash = digest::sha256_bytes(&bytes);
    key_from_hash(model_revision, &hash)
}

/// Makes the key under which the vector of a query with a hash is kept.
pub fn key_from_hash(model_revision: &str, hash: &Vec<u8>) -> (r: String)
    ensures
        r@ == model_revision@ + ":"@ + digest::hex(hash@),
{
    let hex = digest::hex_lower(hash);
    text::join3(model_revision, ":", &hex)
}

/// A kept vector and the bytes that it takes.
#[derive(Debug, Clone, PartialEq, Eq)]
pub struct CacheEntry<T> {
    pub key: String,
    pub embedding: T,
    pub size_bytes: usize,
}

/// The contents of a [`CacheEntry`].
#[verifier::ext_equal]
#[verifier::reject_recursive_types(T)]
pub struct CacheItem<T> {
    pub key: Seq<char>,
    pub embedding: T,
    pub size_bytes: usize,
}

impl<T> View for CacheEntry<T> {
    type V = CacheItem<T>;

    open spec fn view(&self) -> CacheItem<T> {
        CacheItem { key: self.key@, embedding: self.embedding, size_bytes: self.size_bytes }
    }
}

pub open spec fn cache_items<T>(s: Seq<CacheEntry<T>>) -> Seq<CacheItem<T>> {
    s.map_values(|e: CacheEntry<T>| e@)
}

/// The bytes that items take.
pub open spec fn total_bytes<T>(items: Seq<CacheItem<T>>) -> nat
    decreases items.len(),
{
    if items.len() == 0 {
        0
    } else {
        items[0].size_bytes as nat + total_bytes(items.drop_first())
    }
}

/// The position of a key among items, from `from` on.
pub open spec fn key_position<T>(items: Seq<CacheItem<T>>, key: Seq<char>, from: int) -> Option<
    int,
>
    decreases items.len() - from,
{
    if from < 0 || from >= items.len() {
        None
    } else if items[from].key == key {
        Some(from)
    } else {
        key_position(items, key, from + 1)
    }
}

/// The items without those that must go, from the least recently used on, before
/// `size` bytes more fit.
pub open spec fn making_room<T>(
    items: Seq<CacheItem<T>>,
    size: nat,
    max_entries: nat,
    max_bytes: nat,
) -> Seq<CacheItem<T>>
    decreases items.len(),
{
    if items.len() > 0 && (total_bytes(items) + size > max_bytes || items.len() >= max_entries) {
        making_room(items.drop_first(), size, max_entries, max_bytes)
    } else {
        items
    }
}

/// Observable statistics of a cache.
#[derive(Debug, Clone, PartialEq, Eq)]
pub struct CacheStats {
    pub entries: usize,
    pub bytes: usize,
    pub hits: u64,
    pub evictions: u64,
}

/// Query vectors, bounded in number and in bytes. The entries stand in the order in
/// which they were last used, the least recently used first.
pub struct QueryCache<T> {
    pub entries: Vec<CacheEntry<T>>,
    pub max_entries: usize,
    pub max_bytes: usize,
    pub current_bytes: usize,
    pub hits: u64,
    pub evictions: u64,
}

/// The contents of a [`QueryCache`].
#[verifier::ext_equal]
#[verifier::reject_recursive_types(T)]
pub struct CacheModel<T> {
    pub items: Seq<CacheItem<T>>,
    pub max_entries: usize,
    pub max_bytes: usize,
    pub hits: u64,
    pub evictions: u64,
}

impl<T> View for QueryCache<T> {
    type V = CacheModel<T>;

    open spec fn view(&self) -> CacheModel<T> {
        CacheModel {
            items: cache_items(self.entries@),
            max_entries: self.max_entries,
            max_bytes: self.max_bytes,
            hits: self.hits,
            evictions: self.evictions,
        }
    }
}

/// Keys are distinct.
pub open spec fn distinct_keys<T>(items: Seq<CacheItem<T>>) -> bool {
    forall|i: int, j: int|
        0 <= i < j < items.len() ==> (#[trigger] items[i]).key != (#[trigger] items[j]).key
}

impl<T> CacheModel<T> {
    /// What a lookup finds.
    pub open spec fn lookup(self, key: Seq<char>) -> Option<T> {
        match key_position(self.items, key, 0) {
            Some(i) => Some(self.items[i].embedding),
            None => None,
        }
    }

    /// The cache after a lookup: what was found is now the most recently used.
    pub open spec fn after_get(self, key: Seq<char>) -> CacheModel<T> {
        match key_position(self.items, key, 0) {
            Some(i) => CacheModel {
                items: self.items.remove(i).push(self.items[i]),
                hits: (self.hits + 1) as u64,
                ..self
            },
            None => self,
        }
    }

    /// The items without the one under a key.
    pub open spec fn others(self, key: Seq<char>) -> Seq<CacheItem<T>> {
        match key_position(self.items, key, 0) {
            Some(i) => self.items.remove(i),
            None => self.items,
        }
    }

    /// The cache after an insertion. What could never fit is not kept.
    pub open spec fn after_insert(self, item: CacheItem<T>) -> CacheModel<T> {
        if self.max_entries == 0 || item.size_bytes > self.max_bytes {
            self
        } else {
            let others = self.others(item.key);
            let kept = making_room(
                others,
                item.size_bytes as nat,
                self.max_entries as nat,
                self.max_bytes as nat,
            );
            CacheModel {
                items: kept.push(item),
                evictions: (self.evictions + (others.len() - kept.len())) as u64,
                ..self
            }
        }
    }
}

proof fn lemma_key_position<T>(items: Seq<CacheItem<T>>, key: Seq<char>, from: int)
    requires
        0 <= from,
    ensures
        match key_position(items, key, from) {
            Some(i) => from <= i < items.len() && items[i].key == key,
            None => forall|j: int| from <= j < items.len() ==> (#[trigger] items[j]).key != key,
        },
    decreases items.len() - from,
{
    if from < items.len() && items[from].key != key {
        lemma_key_position(items, key, from + 1);
    }
}

proof fn lemma_total_bytes_push<T>(items: Seq<CacheItem<T>>, item: CacheItem<T>)
    ensures
        total_bytes(items.push(item)) == total_bytes(items) + item.size_bytes,
    decreases items.len(),
{
    if items.len() == 0 {
        assert(items.push(item).drop_first() =~= items);
        assert(total_bytes(items.push(item).drop_first()) == 0);
    } else {
        assert(items.push(item).drop_first() =~= items.drop_first().push(item));
        lemma_total_bytes_push(items.drop_first(), item);
    }
}

proof fn lemma_total_bytes_remove<T>(items: Seq<CacheItem<T>>, i: int)
    requires
        0 <= i < items.len(),
    ensures
        total_bytes(items) == total_bytes(items.remove(i)) + items[i].size_bytes,
    decreases items.len(),
{
    if i == 0 {
        assert(items.remove(0) =~= items.drop_first());
    } else {
        assert(items.remove(i).drop_first() =~= items.drop_first().remove(i - 1));
        lemma_total_bytes_remove(items.drop_first(), i - 1);
    }
}

/// What eviction keeps is the most recently used part: the items behind the evicted
/// ones, in their order.
pub proof fn law_eviction_keeps_the_most_recent<T>(
    items: Seq<CacheItem<T>>,
    size: nat,
    max_entries: nat,
    max_bytes: nat,
)
    ensures
        making_room(items, size, max_entries, max_bytes).len() <= items.len(),
        making_room(items, size, max_entries, max_bytes) == items.skip(
            items.len() - making_room(items, size, max_entries, max_bytes).len(),
        ),
    decreases items.len(),
{
    let kept = making_room(items, size, max_entries, max_bytes);
    if items.len() > 0 && (total_bytes(items) + size > max_bytes || items.len() >= max_entries) {
        let rest = items.drop_first();
        law_eviction_keeps_the_most_recent(rest, size, max_entries, max_bytes);
        assert(kept =~= items.skip(items.len() - kept.len()));
    } else {
        assert(items.skip(0) =~= items);
    }
}

/// A vector that can fit is found right after it was inserted, whatever had to go.
pub proof fn law_insert_is_found<T>(cache: CacheModel<T>, item: CacheItem<T>)
    requires
        cache.max_entries > 0,
        item.size_bytes <= cache.max_bytes,
        distinct_keys(cache.items),
    ensures
        cache.after_insert(item).lookup(item.key) == Some(item.embedding),
{
    let others = cache.others(item.key);
    let kept = making_room(
        others,
        item.size_bytes as nat,
        cache.max_entries as nat,
        cache.max_bytes as nat,
    );
    law_eviction_keeps_the_most_recent(
        others,
        item.size_bytes as nat,
        cache.max_entries as nat,
        cache.max_bytes as nat,
    );
    lemma_key_position(cache.items, item.key, 0);
    assert forall|j: int| 0 <= j < others.len() implies (#[trigger] others[j]).key != item.key by {
        match key_position(cache.items, item.key, 0) {
            Some(i) => {
                if j < i {
                    assert(others[j] == cache.items[j]);
                } else {
                    assert(others[j] == cache.items[j + 1]);
                }
            },
            None => {},
        }
    }
    let after = kept.push(item);
    assert forall|j: int| 0 <= j < kept.len() implies (#[trigger] after[j]).key != item.key by {
        assert(kept[j] == others[others.len() - kept.len() + j]);
    }
    lemma_key_position(after, item.key, 0);
    assert(after[kept.len() as int].key == item.key);
}

impl<T> QueryCache<T> {
    /// The bytes are counted, within the bounds, and no key occurs twice.
    pub open spec fn well_formed(self) -> bool {
        &&& self.current_bytes == total_bytes(self@.items)
        &&& self.current_bytes <= self.max_bytes
        &&& self.entries@.len() <= self.max_entries
        &&& distinct_keys(self@.items)
    }

    /// An empty cache with the given bounds.
    pub fn new(max_entries: usize, max_bytes: usize) -> (r: QueryCache<T>)
        ensures
            r.well_formed(),
            r@ == (CacheModel {
                items: Seq::<CacheItem<T>>::empty(),
                max_entries,
                max_bytes,
                hits: 0,
                evictions: 0,
            }),
    {
        let r = QueryCache {
            entries: Vec::new(),
            max_entries,
            max_bytes,
            current_bytes: 0,
            hits: 0,
            evictions: 0,
        };
        assert(r@.items =~= Seq::<CacheItem<T>>::empty());
        r
    }

    fn find(&self, key: &str) -> (r: Option<usize>)
        ensures
            match r {
                Some(i) => i < self.entries@.len() && key_position(self@.items, key@, 0) == Some(
                    i as int,
                ),
                None => key_position(self@.items, key@, 0) is None,
            },
    {
        let ghost items = self@.items;
        let mut i: usize = 0;
        while i < self.entries.len()
            invariant
                i <= self.entries@.len(),
                items == cache_items(self.entries@),
                key_position(items, key@, 0) == key_position(items, key@, i as int),
            decreases self.entries@.len() - i,
        {
            assert(items[i as int] == self.entries@[i as int]@);
            if text::same(&self.entries[i].key, key) {
                return Some(i);
            }
            i = i + 1;
        }
        None
    }

    /// Looks a key up. What is found counts as a hit and becomes the most recently
    /// used.
    pub fn get(&mut self, key: &str) -> (r: Option<&T>)
        requires
            old(self).well_formed(),
            old(self).hits < u64::MAX,
        ensures
            final(self).well_formed(),
            final(self)@ == old(self)@.after_get(key@),
            match old(self)@.lookup(key@) {
                Some(embedding) => r is Some && *r->0 == embedding,
                None => r is None,
            },
    {
        let ghost before = self@.items;
        match self.find(key) {
            None => None,
            Some(i) => {
                let entry = self.entries.remove(i);
                let ghost item = entry@;
                assert(cache_items(self.entries@) =~= before.remove(i as int));
                self.entries.push(entry);
                self.hits = self.hits + 1;
                proof {
                    assert(self@.items =~= before.remove(i as int).push(item));
                    lemma_total_bytes_remove(before, i as int);
                    lemma_total_bytes_push(before.remove(i as int), item);
                    lemma_distinct_after_remove(before, i as int);
                    lemma_key_position(before, key@, 0);
                    lemma_distinct_after_push(before.remove(i as int), item);
                }
                let last: usize = self.entries.len() - 1;
                assert(self@.items[last as int] == item);
                Some(&self.entries[last].embedding)
            },
        }
    }

    /// Keeps a vector as the most recently used one, and evicts the least recently
    /// used ones until it fits.
    pub fn insert(&mut self, key: String, embedding: T, size_bytes: usize)
        requires
            old(self).well_formed(),
            old(self).evictions + old(self).entries@.len() <= u64::MAX,
        ensures
            final(self).well_formed(),
            final(self)@ == old(self)@.after_insert(CacheItem { key: key@, embedding, size_bytes }),
    {
        let ghost start = self@;
        let ghost item = CacheItem { key: key@, embedding, size_bytes };
        if self.max_entries == 0 || size_bytes > self.max_bytes {
            return ;
        }
        proof {
            lemma_key_position(start.items, key@, 0);
        }
        match self.find(&key) {
            None => {},
            Some(i) => {
                proof {
                    lemma_total_bytes_remove(start.items, i as int);
                    lemma_distinct_after_remove(start.items, i as int);
                    assert(start.items[i as int] == self.entries@[i as int]@);
                }
                let removed = self.entries.remove(i);
                self.current_bytes = self.current_bytes - removed.size_bytes;
                assert(self@.items =~= start.items.remove(i as int));
            },
        }
        let ghost others = start.others(key@);
        assert forall|j: int| 0 <= j < others.len() implies (#[trigger] others[j]).key != key@ by {
            match key_position(start.items, key@, 0) {
                Some(i) => {
                    if j < i {
                        assert(others[j] == start.items[j]);
                    } else {
                        assert(others[j] == start.items[j + 1]);
                    }
                },
                None => {},
            }
        }
        while self.entries.len() > 0 && (size_bytes > self.max_bytes - self.current_bytes
            || self.entries.len() >= self.max_entries)
            invariant
                self.current_bytes == total_bytes(self@.items),
                self.current_bytes <= self.max_bytes,
                distinct_keys(self@.items),
                self.max_entries == start.max_entries,
                self.max_bytes == start.max_bytes,
                self.hits == start.hits,
                self@.items.len() <= others.len(),
                self.evictions == start.evictions + (others.len() - self@.items.len()),
                start.evictions + others.len() <= u64::MAX,
                making_room(
                    others,
                    size_bytes as nat,
                    start.max_entries as nat,
                    start.max_bytes as nat,
                ) == making_room(
                    self@.items,
                    size_bytes as nat,
                    start.max_entries as nat,
                    start.max_bytes as nat,
                ),
                forall|j: int|
                    0 <= j < self@.items.len() ==> (#[trigger] self@.items[j]).key != key@,
            decreases self.entries@.len(),
        {
            let ghost before = self@.items;
            proof {
                lemma_total_bytes_remove(before, 0);
                lemma_distinct_after_remove(before, 0);
                assert(before[0] == self.entries@[0]@);
            }
            let removed = self.entries.remove(0);
            self.current_bytes = self.current_bytes - removed.size_bytes;
            self.evictions = self.evictions + 1;
            proof {
                assert(self@.items =~= before.remove(0));
                assert(before.remove(0) =~= before.drop_first());
            }
        }
        let ghost kept = self@.items;
        self.current_bytes = self.current_bytes + size_bytes;
        self.entries.push(CacheEntry { key, embedding, size_bytes });
        proof {
            assert(self@.items =~= kept.push(item));
            lemma_total_bytes_push(kept, item);
            lemma_distinct_after_push(kept, item);
        }
    }

    /// The observable statistics.
    pub fn stats(&self) -> (r: CacheStats)
        requires
            self.well_formed(),
        ensures
            r.entries == self@.items.len(),
            r.bytes == total_bytes(self@.items),
            r.hits == self@.hits,
            r.evictions == self@.evictions,
    {
        CacheStats {
            entries: self.entries.len(),
            bytes: self.current_bytes,
            hits: self.hits,
            evictions: self.evictions,
        }
    }

    /// Drops every entry. The counters stay.
    pub fn clear(&mut self)
        ensures
            final(self).well_formed(),
            final(self)@ == (CacheModel { items: Seq::<CacheItem<T>>::empty(), ..old(self)@ }),
    {
        self.entries = Vec::new();
        self.current_bytes = 0;
        assert(self@.items =~= Seq::<CacheItem<T>>::empty());
    }
}

proof fn lemma_distinct_after_remove<T>(items: Seq<CacheItem<T>>, i: int)
    requires
        0 <= i < items.len(),
        distinct_keys(items),
    ensures
        distinct_keys(items.remove(i)),
        forall|j: int|
            0 <= j < items.remove(i).len() ==> (#[trigger] items.remove(i)[j]).key != items[i].key,
{
    let rest = items.remove(i);
    assert forall|j: int| 0 <= j < rest.len() implies (#[trigger] rest[j]).key != items[i].key by {
        if j < i {
            assert(rest[j] == items[j]);
        } else {
            assert(rest[j] == items[j + 1]);
        }
    }
    assert forall|j: int, k: int| 0 <= j < k < rest.len() implies (#[trigger] rest[j]).key != (
    #[trigger] rest[k]).key by {
        let jj = if j < i {
            j
        } else {
            j + 1
        };
        let kk = if k < i {
            k
        } else {
            k + 1
        };
        assert(rest[j] == items[jj]);
        assert(rest[k] == items[kk]);
    }
}

proof fn lemma_distinct_after_push<T>(items: Seq<CacheItem<T>>, item: CacheItem<T>)
    requires
        distinct_keys(items),
        forall|j: int| 0 <= j < items.len() ==> (#[trigger] items[j]).key != item.key,
    ensures
        distinct_keys(items.push(item)),
{
    let all = items.push(item);
    assert forall|j: int, k: int| 0 <= j < k < all.len() implies (#[trigger] all[j]).key != (
    #[trigger] all[k]).key by {
        assert(all[j] == items[j]);
        if k < items.len() {
            assert(all[k] == items[k]);
        }
    }
}

/// How many query vectors an embedder keeps.
pub const MAX_CACHED_QUERIES: usize = 100;

/// How many bytes of query vectors an embedder keeps.
pub const MAX_CACHED_BYTES: usize = 10485760;

/// A model and the query vectors that were made with it.
pub struct Embedder<T> {
    pub metadata: ModelMetadata,
    pub cache: QueryCache<T>,
}

/// What a query needs: nothing more, or a vector that is then kept under a key.
pub enum QueryStep<'a, T> {
    Cached(&'a T),
    Infer { key: String, query: String },
}

/// How the worker that makes query vectors can fail.
#[derive(Debug, Clone, PartialEq, Eq)]
pub enum InferenceFailure {
    Cancelled,
    Panicked,
    Backend(EmbeddingError),
}

/// The error that a failure of the worker is reported as.
pub open spec fn inference_fault(failure: InferenceFailure) -> EmbeddingFault {
    match failure {
        InferenceFailure::Cancelled => EmbeddingFault::Cancelled,
        InferenceFailure::Panicked => EmbeddingFault::WorkerPanic,
        InferenceFailure::Backend(e) => e@,
    }
}

impl<T> Embedder<T> {
    /// The cache is intact.
    pub open spec fn well_formed(self) -> bool {
        self.cache.well_formed()
    }

    /// An embedder for the offline backend.
    pub fn new() -> (r: Result<Embedder<T>, EmbeddingError>)
        ensures
            r is Ok,
            r->Ok_0.well_formed(),
            r->Ok_0.metadata.model_id@ == "deterministic-hash"@,
            r->Ok_0.metadata.model_revision@ == "deterministic-v1"@,
            r->Ok_0.metadata.dimensions == 384,
            r->Ok_0.metadata.normalized,
            r->Ok_0.cache@ == (CacheModel {
                items: Seq::<CacheItem<T>>::empty(),
                max_entries: MAX_CACHED_QUERIES,
                max_bytes: MAX_CACHED_BYTES,
                hits: 0,
                evictions: 0,
            }),
    {
        let backend = DeterministicBackend::new();
        proof {
            reveal_strlit("deterministic-v1");
        }
        Embedder::with_backend(
            ModelMetadata {
                model_id: backend.model_id,
                model_revision: backend.model_revision,
                dimensions: backend.dimensions,
                normalized: true,
            },
        )
    }

    /// An embedder for a model, without query vectors yet. Only what the backend says
    /// of its model is checked; nothing is embedded.
    pub fn with_backend(metadata: ModelMetadata) -> (r: Result<Embedder<T>, EmbeddingError>)
        ensures
            match metadata_fault(metadata) {
                None => {
                    &&& r is Ok
                    &&& r->Ok_0.metadata == metadata
                    &&& r->Ok_0.well_formed()
                    &&& r->Ok_0.cache@ == (CacheModel {
                        items: Seq::<CacheItem<T>>::empty(),
                        max_entries: MAX_CACHED_QUERIES,
                        max_bytes: MAX_CACHED_BYTES,
                        hits: 0,
                        evictions: 0,
                    })
                },
                Some(s) => r is Err && r->Err_0@ == EmbeddingFault::InvalidConfiguration(s),
            },
    {
        match metadata.validate() {
            Err(e) => Err(e),
            Ok(()) => Ok(
                Embedder { metadata, cache: QueryCache::new(MAX_CACHED_QUERIES, MAX_CACHED_BYTES) },
            ),
        }
    }

    pub fn model_metadata(&self) -> (r: &ModelMetadata)
        ensures
            *r == self.metadata,
    {
        &self.metadata
    }

    /// Checks the documents of a batch and then what the backend made of them.
    pub fn embed_documents(
        &self,
        documents: &Vec<String>,
        answer: Result<Vec<VectorShape>, EmbeddingError>,
    ) -> (r: Result<(), EmbeddingError>)
        ensures
            if !no_blank_document(text::views(documents@)) {
                r is Err && r->Err_0@ == EmbeddingFault::EmptyDocument
            } else {
                match answer {
                    Err(e) => r is Err && r->Err_0@ == e@,
                    Ok(shapes) => match shapes_fault_from(shapes@, self.metadata.dimensions, 0) {
                        None => r is Ok,
                        Some(f) => r is Err && r->Err_0@ == f,
                    },
                }
            },
    {
        match check_documents(documents) {
            Err(e) => Err(e),
            Ok(()) => match answer {
                Err(e) => Err(e),
                Ok(shapes) => check_embeddings(&shapes, self.metadata.dimensions),
            },
        }
    }

    /// Looks the vector of a query up. Where it is not kept, names the text to embed
    /// and the key under which the vector belongs.
    pub fn embed_query_cached(&mut self, query: &str) -> (r: Result<
        QueryStep<'_, T>,
        EmbeddingError,
    >)
        requires
            old(self).well_formed(),
            old(self).cache.hits < u64::MAX,
        ensures
            final(self).well_formed(),
            final(self).metadata == old(self).metadata,
            ({
                let key = query_key(old(self).metadata.model_revision@, query@);
                if text::is_blank(query@) {
                    &&& r is Err && r->Err_0@ == EmbeddingFault::EmptyQuery
                    &&& final(self).cache@ == old(self).cache@
                } else {
                    &&& final(self).cache@ == old(self).cache@.after_get(key)
                    &&& match old(self).cache@.lookup(key) {
                        Some(embedding) => r matches Ok(QueryStep::Cached(v)) && *v == embedding,
                        None => r matches Ok(QueryStep::Infer { key: k, query: q }) && k@ == key
                            && q@ == text::trimmed(query@),
                    }
                }
            }),
    {
        let wanted = match check_query(query) {
            Err(e) => {
                return Err(e);
            },
            Ok(wanted) => wanted,
        };
        let key = cache_key(self.metadata.model_revision.as_str(), query);
        match self.cache.get(&key) {
            Some(embedding) => Ok(QueryStep::Cached(embedding)),
            None => Ok(QueryStep::Infer { key, query: wanted }),
        }
    }

    /// Checks the vector that was made for a query, and keeps it.
    pub fn finish_query(
        &mut self,
        key: String,
        answer: Result<(T, VectorShape), InferenceFailure>,
    ) -> (r: Result<(), EmbeddingError>)
        requires
            old(self).well_formed(),
            old(self).cache.evictions + old(self).cache.entries@.len() <= u64::MAX,
            answer matches Ok(made) ==> made.1.width * 4 <= usize::MAX,
        ensures
            final(self).well_formed(),
            final(self).metadata == old(self).metadata,
            match answer {
                Err(failure) => {
                    &&& r is Err && r->Err_0@ == inference_fault(failure)
                    &&& final(self).cache@ == old(self).cache@
                },
                Ok(made) => match shape_fault(made.1, old(self).metadata.dimensions) {
                    Some(f) => {
                        &&& r is Err && r->Err_0@ == f
                        &&& final(self).cache@ == old(self).cache@
                    },
                    None => {
                        &&& r is Ok
                        &&& final(self).cache@ == old(self).cache@.after_insert(
                            CacheItem {
                                key: key@,
                                embedding: made.0,
                                size_bytes: (made.1.width * 4) as usize,
                            },
                        )
                    },
                },
            },
    {
        match answer {
            Err(failure) => match failure {
                InferenceFailure::Cancelled => Err(EmbeddingError::Cancelled),
                InferenceFailure::Panicked => Err(EmbeddingError::WorkerPanic),
                InferenceFailure::Backend(e) => Err(e),
            },
            Ok((embedding, shape)) => {
                if shape.width != self.metadata.dimensions {
                    return Err(
                        EmbeddingError::DimensionMismatch {
                            expected: self.metadata.dimensions,
                            actual: shape.width,
                        },
                    );
                }
                if !shape.finite {
                    return Err(EmbeddingError::NonFiniteValue);
                }
                self.cache.insert(key, embedding, shape.width * 4);
                Ok(())
            },
        }
    }

    /// The observable statistics of the cache.
    pub fn cache_stats(&self) -> (r: CacheStats)
        requires
            self.well_formed(),
        ensures
            r.entries == self.cache@.items.len(),
            r.bytes == total_bytes(self.cache@.items),
            r.hits == self.cache@.hits,
            r.evictions == self.cache@.evictions,
    {
        self.cache.stats()
    }

    /// Drops every kept vector.
    pub fn clear_cache(&mut self)
        ensures
            final(self).well_formed(),
            final(self).metadata == old(self).metadata,
            final(self).cache@ == (CacheModel {
                items: Seq::<CacheItem<T>>::empty(),
                ..old(self).cache@
            }),
    {
        self.cache.clear();
    }
}

/// Queries that differ in the space around them share one kept vector: once it was
/// made and kept for one of them, it is found for the other.
pub proof fn law_a_query_is_embedded_once<T>(
    cache: CacheModel<T>,
    revision: Seq<char>,
    first: Seq<char>,
    second: Seq<char>,
    embedding: T,
    size_bytes: usize,
)
    requires
        cache.max_entries > 0,
        size_bytes <= cache.max_bytes,
        distinct_keys(cache.items),
        text::trimmed(first) == text::trimmed(second),
    ensures
        cache.after_insert(
            CacheItem { key: query_key(revision, first), embedding, size_bytes },
        ).lookup(query_key(revision, second)) == Some(embedding),
{
    law_insert_is_found(
        cache,
        CacheItem { key: query_key(revision, first), embedding, size_bytes },
    );
}

proof fn lemma_hex_has_no_colon(bytes: Seq<u8>, i: int)
    requires
        0 <= i < digest::hex(bytes).len(),
    ensures
        digest::hex(bytes)[i] != ':',
{
    let b = bytes[i / 2] as int;
    assert(0 <= b < 256);
}

/// A vector is never found under another revision of the model than the one that
/// made it.
pub proof fn law_a_new_revision_starts_afresh(
    old_revision: Seq<char>,
    new_revision: Seq<char>,
    first: Seq<char>,
    second: Seq<char>,
)
    requires
        old_revision != new_revision,
    ensures
        query_key(old_revision, first) != query_key(new_revision, second),
{
    reveal_strlit(":");
    let a = digest::sha256(vstd::utf8::encode_utf8(text::trimmed(first)));
    let b = digest::sha256(vstd::utf8::encode_utf8(text::trimmed(second)));
    let m = old_revision.len() as int;
    let n = new_revision.len() as int;
    let x = query_key(old_revision, first);
    let y = query_key(new_revision, second);
    assert(x.len() == m + 1 + digest::hex(a).len());
    assert(y.len() == n + 1 + digest::hex(b).len());
    if x == y {
        assert(x[m] == ':');
        assert(y[n] == ':');
        if m < n {
            lemma_hex_has_no_colon(a, n - m - 1);
            assert(x[n] == digest::hex(a)[n - m - 1]);
        } else if n < m {
            lemma_hex_has_no_colon(b, m - n - 1);
            assert(y[m] == digest::hex(b)[m - n - 1]);
        } else {
            assert(old_revision =~= x.take(m));
            assert(new_revision =~= y.take(n));
        }
    }
}

/// How many identifiers a document names at most.
pub const MAX_IDENTIFIERS: usize = 10;

/// What is embedded for a skill.
#[derive(Debug, Clone, PartialEq, Eq)]
pub struct SkillDocument {
    pub description: String,
    /// Names and signatures.
    pub exports: Vec<(String, String)>,
    pub tags: Vec<String>,
    pub identifiers: Vec<String>,
}

/// The contents of a [`SkillDocument`].
#[verifier::ext_equal]
pub struct DocumentModel {
    pub description: Seq<char>,
    pub exports: Seq<(Seq<char>, Seq<char>)>,
    pub tags: Seq<Seq<char>>,
    pub identifiers: Seq<Seq<char>>,
}

impl View for SkillDocument {
    type V = DocumentModel;

    open spec fn view(&self) -> DocumentModel {
        DocumentModel {
            description: self.description@,
            exports: pair_views(self.exports@),
            tags: text::views(self.tags@),
            identifiers: text::views(self.identifiers@),
        }
    }
}

/// The first identifiers in order, each once.
pub open spec fn bounded_identifiers(s: Seq<Seq<char>>) -> Seq<Seq<char>> {
    let all = text::without_repeats(text::sorted_texts(s));
    if all.len() > MAX_IDENTIFIERS {
        all.take(MAX_IDENTIFIERS as int)
    } else {
        all
    }
}

/// The order in which identifiers are given does not matter.
pub proof fn law_identifier_arrangement_is_irrelevant(a: Seq<Seq<char>>, b: Seq<Seq<char>>)
    requires
        a.to_multiset() == b.to_multiset(),
    ensures
        bounded_identifiers(a) == bounded_identifiers(b),
{
    text::lemma_sort_ignores_arrangement(a, b);
}

/// Names each followed by its signature.
pub open spec fn export_texts(s: Seq<(Seq<char>, Seq<char>)>) -> Seq<Seq<char>> {
    s.map_values(|p: (Seq<char>, Seq<char>)| p.0 + p.1)
}

/// A labelled list, or nothing where the list is empty.
pub open spec fn section(
    label: Seq<char>,
    items: Seq<Seq<char>>,
    separator: Seq<char>,
) -> Seq<char> {
    if items.len() == 0 {
        Seq::empty()
    } else {
        label + text::joined(items, separator)
    }
}

impl DocumentModel {
    /// The text of the document.
    pub open spec fn rendered(self) -> Seq<char> {
        self.description + section("\nExports: "@, export_texts(self.exports), "; "@) + section(
            "\nTags: "@,
            self.tags,
            ", "@,
        ) + section("\nIdentifiers: "@, self.identifiers, ", "@)
    }
}

fn append_section(out: &mut String, label: &str, items: &Vec<String>, separator: &str)
    ensures
        final(out)@ == old(out)@ + section(label@, text::views(items@), separator@),
{
    let ghost before = out@;
    if items.len() > 0 {
        let list = text::join(items, separator);
        out.append(label);
        out.append(&list);
        assert(out@ =~= before + (label@ + list@));
    } else {
        assert(out@ =~= before + Seq::<char>::empty());
    }
}

impl SkillDocument {
    /// A document with a description alone.
    pub fn new(description: String) -> (r: SkillDocument)
        ensures
            r@ == (DocumentModel {
                description: description@,
                exports: Seq::empty(),
                tags: Seq::empty(),
                identifiers: Seq::empty(),
            }),
    {
        let r = SkillDocument {
            description,
            exports: Vec::new(),
            tags: Vec::new(),
            identifiers: Vec::new(),
        };
        proof {
            assert(pair_views(r.exports@) =~= Seq::empty());
            assert(text::views(r.tags@) =~= Seq::empty());
            assert(text::views(r.identifiers@) =~= Seq::empty());
        }
        r
    }

    /// Adds an export.
    pub fn with_export(self, name: String, signature: String) -> (r: SkillDocument)
        ensures
            r@ == (DocumentModel {
                exports: self@.exports.push((name@, signature@)),
                ..self@
            }),
    {
        let mut doc = self;
        let ghost before = pair_views(doc.exports@);
        doc.exports.push((name, signature));
        assert(pair_views(doc.exports@) =~= before.push((name@, signature@)));
        doc
    }

    /// Adds multiple exports.
    pub fn with_exports(self, exports: Vec<(String, String)>) -> (r: SkillDocument)
        ensures
            r@ == (DocumentModel { exports: self@.exports + pair_views(exports@), ..self@ }),
    {
        let mut doc = self;
        let mut more = exports;
        let ghost before = pair_views(doc.exports@);
        let ghost added = pair_views(more@);
        doc.exports.append(&mut more);
        assert(pair_views(doc.exports@) =~= before + added);
        doc
    }

    /// Adds tags.
    pub fn with_tags(self, tags: Vec<String>) -> (r: SkillDocument)
        ensures
            r@ == (DocumentModel { tags: self@.tags + text::views(tags@), ..self@ }),
    {
        let mut doc = self;
        let mut more = tags;
        let ghost before = text::views(doc.tags@);
        let ghost added = text::views(more@);
        doc.tags.append(&mut more);
        assert(text::views(doc.tags@) =~= before + added);
        doc
    }

    /// Adds identifiers, bounded and sorted: of all of them the first ones in order, each
    /// once.
    pub fn with_identifiers(self, identifiers: Vec<String>) -> (r: SkillDocument)
        ensures
            r@ == (DocumentModel {
                identifiers: bounded_identifiers(
                    self@.identifiers + text::views(identifiers@),
                ),
                ..self@
            }),
    {
        let mut doc = self;
        let mut more = identifiers;
        let mut every = doc.identifiers;
        let ghost before = text::views(every@);
        let ghost added = text::views(more@);
        every.append(&mut more);
        assert(text::views(every@) =~= before + added);
        let mut all = text::dedup(text::sort_strings(every));
        let ghost full = text::views(all@);
        if all.len() > MAX_IDENTIFIERS {
            all.truncate(MAX_IDENTIFIERS);
            assert(text::views(all@) =~= full.take(MAX_IDENTIFIERS as int));
        }
        doc.identifiers = all;
        doc
    }

    /// The text that is embedded.
    pub fn render(&self) -> (r: String)
        ensures
            r@ == self@.rendered(),
    {
        let ghost wanted = export_texts(pair_views(self.exports@));
        let mut exports: Vec<String> = Vec::new();
        let mut i: usize = 0;
        assert(text::views(exports@) =~= wanted.take(0));
        while i < self.exports.len()
            invariant
                i <= self.exports@.len(),
                wanted == export_texts(pair_views(self.exports@)),
                text::views(exports@) == wanted.take(i as int),
            decreases self.exports@.len() - i,
        {
            let ghost before = text::views(exports@);
            let item = text::join2(&self.exports[i].0, &self.exports[i].1);
            exports.push(item);
            proof {
                assert(item@ == wanted[i as int]);
                assert(text::views(exports@) =~= before.push(item@));
                assert(wanted.take(i + 1) =~= before.push(item@));
            }
            i = i + 1;
        }
        assert(wanted.take(wanted.len() as int) =~= wanted);
        let mut doc = self.description.clone();
        append_section(&mut doc, "\nExports: ", &exports, "; ");
        append_section(&mut doc, "\nTags: ", &self.tags, ", ");
        append_section(&mut doc, "\nIdentifiers: ", &self.identifiers, ", ");
        doc
    }
}

/// The document of an artifact.
pub open spec fn artifact_document(artifact: SkillArtifact) -> DocumentModel {
    DocumentModel {
        description: artifact.description@,
        exports: Seq::new(
            artifact.exports@.len(),
            |i: int| (artifact.exports@[i].name@, artifact.exports@[i].signature@),
        ),
        tags: text::views(artifact.tags@),
        identifiers: bounded_identifiers(
            Seq::new(artifact.exports@.len(), |i: int| artifact.exports@[i].name@),
        ),
    }
}

/// The text that is embedded for an artifact.
pub fn skill_document(artifact: &SkillArtifact) -> (r: String)
    ensures
        r@ == artifact_document(*artifact).rendered(),
{
    let mut exports: Vec<(String, String)> = Vec::new();
    let mut names: Vec<String> = Vec::new();
    let mut i: usize = 0;
    while i < artifact.exports.len()
        invariant
            i <= artifact.exports@.len(),
            exports@.len() == i,
            names@.len() == i,
            forall|j: int|
                0 <= j < i ==> (#[trigger] exports@[j]).0@ == artifact.exports@[j].name@
                    && exports@[j].1@ == artifact.exports@[j].signature@,
            forall|j: int| 0 <= j < i ==> (#[trigger] names@[j])@ == artifact.exports@[j].name@,
        decreases artifact.exports@.len() - i,
    {
        exports.push((artifact.exports[i].name.clone(), artifact.exports[i].signature.clone()));
        names.push(artifact.exports[i].name.clone());
        i = i + 1;
    }
    proof {
        let model = artifact_document(*artifact);
        assert(pair_views(exports@) =~= model.exports);
        assert(Seq::empty() + pair_views(exports@) =~= model.exports);
        assert(Seq::empty() + model.tags =~= model.tags);
        assert(Seq::empty() + text::views(names@) =~= text::views(names@));
        assert(text::views(names@) =~= Seq::new(
            artifact.exports@.len(),
            |i: int| artifact.exports@[i].name@,
        ));
    }
    SkillDocument::new(artifact.description.clone()).with_exports(exports).with_tags(
        text::clone_strings(&artifact.tags),
    ).with_identifiers(names).render()
}

proof fn lemma_no_entry_fault(
    entries: Seq<ResponseEntry>,
    from: int,
    inputs: nat,
    dimensions: usize,
)
    requires
        0 <= from <= entries.len(),
    ensures
        entries_fault_from(entries, from, inputs, dimensions) is None <==> forall|i: int|
            #![trigger entries[i]]
            from <= i < entries.len() ==> entry_fault(entries, i, inputs, dimensions) is None,
    decreases entries.len() - from,
{
    if from < entries.len() {
        lemma_no_entry_fault(entries, from + 1, inputs, dimensions);
        let e = entries[from];
    }
}

/// The input that an entry of an answer is for: the one that it names, or else the one
/// that stands where it stands.
pub open spec fn names_input(entry: ResponseEntry, at: int, input: int) -> bool {
    match entry.index {
        Some(n) => n == input,
        None => at == input,
    }
}

/// An answer of an endpoint is taken only whole: it has one entry for each input and none
/// twice, each with as many finite numbers as the model is wide. Each vector then stands
/// where the input stands that its entry is for.
pub proof fn law_answers_are_taken_only_whole(
    answer: EndpointAnswer,
    inputs: usize,
    dimensions: usize,
    vectors: Vec<Vec<u32>>,
)
    requires
        inputs > 0,
        request_concludes(answer, inputs, dimensions, Ok(vectors)),
    ensures
        answer matches EndpointAnswer::Entries(Some(entries)) && entries@.len() == inputs
            && vectors@.len() == inputs && (forall|i: int, input: int|
            0 <= i < inputs && #[trigger] names_input(entries@[i], i, input) ==> 0 <= input
                < inputs && (entries@[i].vector matches ResponseVector::Numbers {
                width,
                normalized: Some(v),
            } && width == dimensions && vectors@[input]@ == v@)) && (forall|
            i: int,
            j: int,
            input: int,
        |
            #![trigger names_input(entries@[i], i, input), names_input(entries@[j], j, input)]
            0 <= i < j < inputs ==> !(names_input(entries@[i], i, input) && names_input(
                entries@[j],
                j,
                input,
            ))),
{
    let entries = answer->Entries_0->0@;
    lemma_no_entry_fault(entries, 0, inputs as nat, dimensions);
    assert forall|i: int, input: int|
        0 <= i < inputs && #[trigger] names_input(entries[i], i, input) implies 0 <= input < inputs
        && (entries[i].vector matches ResponseVector::Numbers { width, normalized: Some(v) }
        && width == dimensions && vectors@[input]@ == v@) by {
        assert(entry_fault(entries, i, inputs as nat, dimensions) is None);
        assert(answered_index(entries[i], i) == input);
    }
    assert forall|i: int, j: int, input: int|
        #![trigger names_input(entries[i], i, input), names_input(entries[j], j, input)]
        0 <= i < j < inputs implies !(names_input(entries[i], i, input) && names_input(
        entries[j],
        j,
        input,
    )) by {
        assert(entry_fault(entries, j, inputs as nat, dimensions) is None);
        if names_input(entries[i], i, input) && names_input(entries[j], j, input) {
            assert(answered_index(entries[i], i) == input);
            assert(answered_index(entries[j], j) == input);
        }
    }
}

/// A request that failed brings no vectors: an error is told without its addresses, and a
/// refusal by its status alone.
pub proof fn law_failed_requests_bring_nothing(
    answer: EndpointAnswer,
    inputs: usize,
    dimensions: usize,
)
    requires
        inputs > 0,
    ensures
        match answer {
            EndpointAnswer::Failed(message) => request_fault(answer, inputs, dimensions) == Some(
                EmbeddingFault::RequestFailed(redacted(message@)),
            ),
            EndpointAnswer::Unreadable(message) => request_fault(answer, inputs, dimensions)
                == Some(EmbeddingFault::RequestFailed(redacted(message@))),
            EndpointAnswer::Status(status) => request_fault(answer, inputs, dimensions) == Some(
                EmbeddingFault::RequestFailed("embeddings endpoint returned HTTP "@ + status@),
            ),
            EndpointAnswer::Entries(None) => request_fault(answer, inputs, dimensions) is Some,
            EndpointAnswer::Entries(Some(entries)) => entries@.len() != inputs ==> request_fault(
                answer,
                inputs,
                dimensions,
            ) is Some,
        },
{
}

/// Redaction changes just the words that hold an address.
pub proof fn law_redaction_keeps_other_words(s: Seq<char>)
    ensures
        redacted(s) == text::joined(
            text::words(s).map_values(
                |word: Seq<char>|
                    if text::occurs(word, "://"@) {
                        "<url>"@
                    } else {
                        word
                    },
            ),
            " "@,
        ),
{
    let told = text::words(s).map_values(
        |word: Seq<char>|
            if text::occurs(word, "://"@) {
                "<url>"@
            } else {
                word
            },
    );
    assert(told =~= redacted_words(text::words(s)));
}

/// A vector is accepted exactly where it is as wide as its model and finite, and a model
/// exactly where it has a width and a revision.
pub proof fn law_vectors_fit_their_model(
    shapes: Seq<VectorShape>,
    dimensions: usize,
    m: ModelMetadata,
)
    ensures
        shapes_fault_from(shapes, dimensions, 0) is None <==> forall|i: int|
            0 <= i < shapes.len() ==> (#[trigger] shapes[i]).width == dimensions
                && shapes[i].finite,
        metadata_fault(m) is None <==> m.dimensions > 0 && m.model_revision@.len() > 0,
{
    lemma_no_shape_fault(shapes, dimensions, 0);
}

proof fn lemma_no_shape_fault(shapes: Seq<VectorShape>, dimensions: usize, from: int)
    requires
        0 <= from <= shapes.len(),
    ensures
        shapes_fault_from(shapes, dimensions, from) is None <==> forall|i: int|
            from <= i < shapes.len() ==> (#[trigger] shapes[i]).width == dimensions
                && shapes[i].finite,
    decreases shapes.len() - from,
{
    if from < shapes.len() {
        lemma_no_shape_fault(shapes, dimensions, from + 1);
        let e = shapes[from];
    }
}

/// A configuration that names another model than the default one must say how wide it is,
/// and no width is zero. The backend it makes asks the endpoint under the base address,
/// with the key, under the names that were chosen or the defaults.
pub proof fn law_backends_follow_their_configuration(
    config: EmbeddingConfig,
    backend: ExternalBackend,
    key: Seq<char>,
    found: Option<String>,
)
    ensures
        config_fault(config) is None <==> match config.dimensions {
            Some(n) => n > 0,
            None => config.model is None || config.model->0@ == "openai/text-embedding-3-small"@,
        },
        key_fault(config, found) is None <==> found is Some && !text::is_blank(found->0@),
        key_variable(config) == (if config.api_key_env is Some {
            config.api_key_env->0@
        } else {
            "OPENROUTER_API_KEY"@
        }),
        backend.is_made_from(config, key) ==> {
            let model = if config.model is Some {
                config.model->0@
            } else {
                "openai/text-embedding-3-small"@
            };
            &&& backend.api_key@ == key
            &&& backend.model_id@ == model
            &&& backend.model_revision@ == (if config.model_revision is Some {
                config.model_revision->0@
            } else {
                model
            })
            &&& config.dimensions is Some ==> backend.dimensions == config.dimensions->0
            &&& config.dimensions is None ==> backend.dimensions == 1536
            &&& backend.timeout_secs == (if config.timeout_secs is Some {
                config.timeout_secs->0
            } else {
                30
            })
            &&& backend.endpoint@ == text::without_trailing(
                if config.base_url is Some {
                    config.base_url->0@
                } else {
                    "https://openrouter.ai/api/v1"@
                },
                '/',
            ) + "/embeddings"@
        },
{
}

/// A lookup changes nothing that is kept but its order: what was found is then the most
/// recently used, and everything is still found.
pub proof fn law_lookups_keep_everything<T>(cache: CacheModel<T>, key: Seq<char>, other: Seq<char>)
    requires
        distinct_keys(cache.items),
    ensures
        cache.after_get(key).lookup(other) == cache.lookup(other),
        cache.after_get(key).items.len() == cache.items.len(),
        cache.lookup(key) is Some ==> cache.after_get(key).items.last().key == key,
        cache.after_get(key).evictions == cache.evictions,
        cache.after_get(key).max_entries == cache.max_entries,
        cache.after_get(key).max_bytes == cache.max_bytes,
        cache.lookup(key) is None ==> cache.after_get(key) == cache,
        cache.lookup(key) is Some && cache.hits < u64::MAX ==> cache.after_get(key).hits
            == cache.hits + 1,
{
    lemma_key_position(cache.items, key, 0);
    let after = cache.after_get(key);
    lemma_lookup(cache, other);
    if let Some(i) = key_position(cache.items, key, 0) {
        let n = cache.items.len() - 1;
        assert(after.items[n] == cache.items[i]);
        assert forall|a: int, b: int| 0 <= a < b < after.items.len() implies (
        #[trigger] after.items[a]).key != (#[trigger] after.items[b]).key by {
            let aa = if a < i { a } else { a + 1 };
            let bb = if b == n { i } else if b < i { b } else { b + 1 };
            assert(after.items[a] == cache.items[aa]);
            assert(after.items[b] == cache.items[bb]);
            if aa < bb {
                assert(cache.items[aa].key != cache.items[bb].key);
            } else {
                assert(cache.items[bb].key != cache.items[aa].key);
            }
        }
        lemma_lookup(after, other);
        if exists|k: int| 0 <= k < cache.items.len() && (#[trigger] cache.items[k]).key == other {
            let k = choose|k: int|
                0 <= k < cache.items.len() && (#[trigger] cache.items[k]).key == other;
            let kk = if k == i { n } else if k < i { k } else { k - 1 };
            assert(after.items[kk] == cache.items[k]);
        } else {
            assert forall|k: int| 0 <= k < after.items.len() implies (#[trigger] after.items[k]).key
                != other by {
                let kk = if k == n { i } else if k < i { k } else { k + 1 };
                assert(after.items[k] == cache.items[kk]);
            }
        }
    }
}

/// What is kept under a key is found, and nothing else is.
proof fn lemma_lookup<T>(cache: CacheModel<T>, key: Seq<char>)
    requires
        distinct_keys(cache.items),
    ensures
        forall|k: int|
            0 <= k < cache.items.len() && (#[trigger] cache.items[k]).key == key ==> cache.lookup(
                key,
            ) == Some(cache.items[k].embedding),
        (forall|k: int| 0 <= k < cache.items.len() ==> (#[trigger] cache.items[k]).key != key)
            ==> cache.lookup(key) is None,
{
    lemma_key_position(cache.items, key, 0);
    assert forall|k: int|
        0 <= k < cache.items.len() && (#[trigger] cache.items[k]).key == key implies cache.lookup(
        key,
    ) == Some(cache.items[k].embedding) by {
        let i = key_position(cache.items, key, 0)->0;
        if i < k {
            assert(cache.items[i].key != cache.items[k].key);
        } else if k < i {
            assert(cache.items[k].key != cache.items[i].key);
        }
    }
}

/// Items fit beside one more.
pub open spec fn leave_room<T>(
    items: Seq<CacheItem<T>>,
    size: nat,
    max_entries: nat,
    max_bytes: nat,
) -> bool {
    items.len() < max_entries && total_bytes(items) + size <= max_bytes
}

proof fn lemma_making_room<T>(
    items: Seq<CacheItem<T>>,
    size: nat,
    max_entries: nat,
    max_bytes: nat,
)
    ensures
        ({
            let kept = making_room(items, size, max_entries, max_bytes);
            let gone = items.len() - kept.len();
            &&& 0 <= gone
            &&& kept == items.skip(gone)
            &&& kept.len() == 0 || leave_room(kept, size, max_entries, max_bytes)
            &&& forall|g: int|
                0 <= g < gone ==> !leave_room(
                    #[trigger] items.skip(g),
                    size,
                    max_entries,
                    max_bytes,
                )
        }),
    decreases items.len(),
{
    let kept = making_room(items, size, max_entries, max_bytes);
    let gone = items.len() - kept.len();
    if items.len() > 0 && !leave_room(items, size, max_entries, max_bytes) {
        let rest = items.drop_first();
        lemma_making_room(rest, size, max_entries, max_bytes);
        assert(rest.skip(gone - 1) =~= items.skip(gone));
        assert forall|g: int| 0 <= g < gone implies !leave_room(
            #[trigger] items.skip(g),
            size,
            max_entries,
            max_bytes,
        ) by {
            if g == 0 {
                assert(items.skip(0) =~= items);
            } else {
                assert(rest.skip(g - 1) =~= items.skip(g));
            }
        }
    } else {
        assert(items.skip(0) =~= items);
    }
}

/// An insertion puts the vector in front of all others in use, takes the one that had its
/// key away, and lets go of as few others as it must, the least recently used first. What
/// could never fit changes nothing.
pub proof fn law_insertions_let_go_of_as_few_as_they_must<T>(
    cache: CacheModel<T>,
    item: CacheItem<T>,
)
    requires
        distinct_keys(cache.items),
    ensures
        cache.max_entries == 0 || item.size_bytes > cache.max_bytes ==> cache.after_insert(item)
            == cache,
        cache.max_entries > 0 && item.size_bytes <= cache.max_bytes ==> {
            let after = cache.after_insert(item);
            let others = cache.items.filter(|kept: CacheItem<T>| kept.key != item.key);
            let gone = others.len() + 1 - after.items.len();
            &&& 0 <= gone <= others.len()
            &&& after.items == others.skip(gone).push(item)
            &&& after.items.len() == 1 || leave_room(
                others.skip(gone),
                item.size_bytes as nat,
                cache.max_entries as nat,
                cache.max_bytes as nat,
            )
            &&& forall|g: int|
                0 <= g < gone ==> !leave_room(
                    #[trigger] others.skip(g),
                    item.size_bytes as nat,
                    cache.max_entries as nat,
                    cache.max_bytes as nat,
                )
        },
{
    let keep = |kept: CacheItem<T>| kept.key != item.key;
    lemma_key_position(cache.items, item.key, 0);
    let others = cache.others(item.key);
    assert(others == cache.items.filter(keep)) by {
        match key_position(cache.items, item.key, 0) {
            None => {
                lemma_filter_all(cache.items, keep);
            },
            Some(i) => {
                lemma_filter_one(cache.items, keep, i);
            },
        }
    }
    lemma_making_room(
        others,
        item.size_bytes as nat,
        cache.max_entries as nat,
        cache.max_bytes as nat,
    );
}

proof fn lemma_filter_all<A>(s: Seq<A>, p: spec_fn(A) -> bool)
    requires
        forall|i: int| 0 <= i < s.len() ==> p(#[trigger] s[i]),
    ensures
        s.filter(p) == s,
    decreases s.len(),
{
    reveal(Seq::filter);
    if s.len() > 0 {
        assert forall|i: int| 0 <= i < s.drop_last().len() implies p(#[trigger] s.drop_last()[i]) by {
            assert(s.drop_last()[i] == s[i]);
        }
        lemma_filter_all(s.drop_last(), p);
        assert(s =~= s.drop_last().push(s.last()));
    } else {
        assert(s.filter(p) =~= s);
    }
}

proof fn lemma_filter_one<T>(s: Seq<CacheItem<T>>, p: spec_fn(CacheItem<T>) -> bool, i: int)
    requires
        0 <= i < s.len(),
        !p(s[i]),
        forall|k: int| 0 <= k < s.len() && k != i ==> s[k].key != s[i].key,
        forall|x: CacheItem<T>| #[trigger] p(x) <==> x.key != s[i].key,
    ensures
        s.filter(p) == s.remove(i),
    decreases s.len(),
{
    reveal(Seq::filter);
    let init = s.drop_last();
    if i == s.len() - 1 {
        assert forall|k: int| 0 <= k < init.len() implies p(#[trigger] init[k]) by {
            assert(init[k] == s[k]);
        }
        lemma_filter_all(init, p);
        assert(s.remove(i) =~= init);
    } else {
        assert(init[i] == s[i]);
        lemma_filter_one(init, p, i);
        assert(p(s.last()));
        assert(s.remove(i) =~= init.remove(i).push(s.last()));
    }
}

/// What is embedded for a skill says everything by which it is looked for: its
/// description, then each export as its name and its signature, its tags, and the names
/// of its exports in order, each once and at most ten of them. A list that is empty has
/// no line.
pub proof fn law_documents_say_what_a_skill_is(artifact: SkillArtifact)
    ensures
        ({
            let d = artifact_document(artifact);
            let names = Seq::new(artifact.exports@.len(), |i: int| artifact.exports@[i].name@);
            let lines = Seq::new(
                artifact.exports@.len(),
                |i: int| artifact.exports@[i].name@ + artifact.exports@[i].signature@,
            );
            let tags = Seq::new(artifact.tags@.len(), |i: int| artifact.tags@[i]@);
            let all = text::without_repeats(names.sort_by(text::lex_order()));
            let some = if all.len() > 10 {
                all.take(10)
            } else {
                all
            };
            d.rendered() == artifact.description@ + (if lines.len() == 0 {
                Seq::empty()
            } else {
                "\nExports: "@ + text::joined(lines, "; "@)
            }) + (if tags.len() == 0 {
                Seq::empty()
            } else {
                "\nTags: "@ + text::joined(tags, ", "@)
            }) + (if some.len() == 0 {
                Seq::empty()
            } else {
                "\nIdentifiers: "@ + text::joined(some, ", "@)
            })
        }),
{
    let d = artifact_document(artifact);
    let lines = Seq::new(
        artifact.exports@.len(),
        |i: int| artifact.exports@[i].name@ + artifact.exports@[i].signature@,
    );
    let tags = Seq::new(artifact.tags@.len(), |i: int| artifact.tags@[i]@);
    assert(export_texts(d.exports) =~= lines);
    assert(d.tags =~= tags);
}

} // verus!
